//! Painting: walking the laid-out tree and recording primitives.
//!
//! The core does not rasterize; it records a deterministic sequence of
//! paint commands — coloured quads and centred text runs, in absolute
//! coordinates — that the graphics collaborator turns into pixels.
//! Painting is free of side effects on the tree, so a skipped iteration
//! repaints identically on the next.

use vstd::prelude::*;

use crate::description::{clone_texts, texts_view};
use crate::geom::{pos_wf, Position, Rect, Size};
use crate::view::{
    laid_out, lemma_trees_view, materialized, tree_view, trees_view, NodeModel, WidgetTree,
};
use crate::widgets::button::Rgba;
use crate::widgets::BehaviorModel;

verus! {

broadcast use vstd::std_specs::vec::group_vec_axioms;

/// One primitive handed to the graphics collaborator, in absolute
/// coordinates.
pub enum PaintCmd {
    /// A colour-filled rectangle.
    Quad { rect: Rect, colour: Rgba },
    /// A text run centred at `pos`.
    Text { pos: Position, text: Vec<String> },
}

/// Mathematical model of [`PaintCmd`].
#[verifier::ext_equal]
pub enum PaintCmdModel {
    Quad { rect: Rect, colour: Rgba },
    Text { pos: Position, text: Seq<Seq<char>> },
}

impl View for PaintCmd {
    type V = PaintCmdModel;

    open spec fn view(&self) -> PaintCmdModel {
        match self {
            PaintCmd::Quad { rect, colour } => PaintCmdModel::Quad {
                rect: *rect,
                colour: *colour,
            },
            PaintCmd::Text { pos, text } => PaintCmdModel::Text {
                pos: *pos,
                text: texts_view(text@),
            },
        }
    }
}

/// The scoped painting context: an append-only recording of primitives.
pub struct Painter {
    commands: Vec<PaintCmd>,
}

/// The models of recorded commands, in order.
pub open spec fn cmds_view(s: Seq<PaintCmd>) -> Seq<PaintCmdModel> {
    Seq::new(s.len(), |i: int| s[i]@)
}

impl View for Painter {
    type V = Seq<PaintCmdModel>;

    closed spec fn view(&self) -> Seq<PaintCmdModel> {
        cmds_view(self.commands@)
    }
}

impl Painter {
    /// A painter with nothing recorded.
    pub fn new() -> (p: Painter)
        ensures
            p@ == Seq::<PaintCmdModel>::empty(),
    {
        let p = Painter { commands: Vec::new() };
        proof {
            assert(p@ =~= Seq::<PaintCmdModel>::empty());
        }
        p
    }

    /// Record a colour-filled rectangle.
    pub fn paint_quad(&mut self, rect: Rect, colour: Rgba)
        ensures
            final(self)@ == old(self)@.push(PaintCmdModel::Quad { rect, colour }),
    {
        self.commands.push(PaintCmd::Quad { rect, colour });
        proof {
            assert(self@ =~= old(self)@.push(PaintCmdModel::Quad { rect, colour }));
        }
    }

    /// Record a text run centred at `pos`.
    pub fn paint_text(&mut self, pos: Position, text: Vec<String>)
        ensures
            final(self)@ == old(self)@.push(
                PaintCmdModel::Text { pos, text: texts_view(text@) },
            ),
    {
        let ghost tv = texts_view(text@);
        self.commands.push(PaintCmd::Text { pos, text });
        proof {
            assert(self@ =~= old(self)@.push(PaintCmdModel::Text { pos, text: tv }));
        }
    }

    /// The commands recorded so far.
    pub fn commands(&self) -> (r: &Vec<PaintCmd>)
        ensures
            cmds_view(r@) == self@,
    {
        &self.commands
    }
}

/// The midpoint of a rectangle translated by `origin`: where a node's
/// text run is centred.
pub open spec fn center_of(origin: Position, a: Rect) -> Position {
    Position {
        x: (origin.x + a.origin.x + a.size.width / 2) as i64,
        y: (origin.y + a.origin.y + a.size.height / 2) as i64,
    }
}

/// What a widget behavior paints, given the allocation translated by the
/// enclosing origin: a button paints its coloured quad and its centred
/// text; a label paints its centred text alone.
pub open spec fn behavior_paint_m(b: BehaviorModel, origin: Position, a: Rect) -> Seq<
    PaintCmdModel,
> {
    match b {
        BehaviorModel::Button(bw) => Seq::empty().push(
            PaintCmdModel::Quad {
                rect: Rect {
                    origin: Position {
                        x: (origin.x + a.origin.x) as i64,
                        y: (origin.y + a.origin.y) as i64,
                    },
                    size: a.size,
                },
                colour: bw.colour,
            },
        ).push(PaintCmdModel::Text { pos: center_of(origin, a), text: bw.text }),
        BehaviorModel::Label(lw) => Seq::empty().push(
            PaintCmdModel::Text { pos: center_of(origin, a), text: lw.text },
        ),
    }
}

/// The commands painting a node appends, in order: a view paints its
/// subtree, a widget paints its behavior within its assigned rectangle,
/// a layout node paints its children in order.
pub open spec fn paint_m(m: NodeModel, origin: Position) -> Seq<PaintCmdModel>
    decreases m, 1int,
{
    match m {
        NodeModel::View { subtree, .. } => match subtree {
            Some(w) => paint_m(*w, origin),
            None => Seq::empty(),
        },
        NodeModel::Widget { allocation, widget, .. } => match allocation {
            Some(a) => behavior_paint_m(widget, origin, a),
            None => Seq::empty(),
        },
        NodeModel::Layout { children, .. } => paint_seq_m(children, origin),
    }
}

/// The commands painting a sequence of nodes appends, in order.
pub open spec fn paint_seq_m(s: Seq<NodeModel>, origin: Position) -> Seq<PaintCmdModel>
    decreases s, 0int,
{
    if s.len() == 0 {
        Seq::empty()
    } else {
        paint_seq_m(s.drop_last(), origin) + paint_m(s.last(), origin)
    }
}

impl WidgetTree {
    /// Paint this tree into the given painter, in the coordinate space
    /// shifted by `origin`: the commands this appends are a function of
    /// the tree and the origin alone.
    pub fn paint(&self, origin: Position, painter: &mut Painter)
        requires
            materialized(self@),
            laid_out(self@),
            pos_wf(origin),
        ensures
            final(painter)@ == old(painter)@ + paint_m(self@, origin),
        decreases *self,
    {
        match self {
            WidgetTree::View(b) => {
                match &b.widget {
                    Some(w) => {
                        proof {
                            assert(decreases_to!(*self => (*self)->View_0));
                            assert(decreases_to!((*self)->View_0 => (*self)->View_0.widget));
                            assert(decreases_to!(
                                (*self)->View_0.widget => (*self)->View_0.widget->Some_0));
                            assert((*self)->View_0.widget->Some_0 == *w);
                        }
                        w.paint(origin, painter);
                    },
                    None => vstd::pervasive::unreached(),
                }
            },
            WidgetTree::Widget(b) => {
                match &b.allocation {
                    Some(a) => {
                        let a = *a;
                        let shifted = Position {
                            x: origin.x + a.origin.x,
                            y: origin.y + a.origin.y,
                        };
                        match &b.widget {
                            crate::widgets::WidgetBehavior::Button(bw) => {
                                painter.paint_quad(
                                    Rect { origin: shifted, size: a.size },
                                    bw.colour,
                                );
                                let centre = Position {
                                    x: shifted.x + a.size.width / 2,
                                    y: shifted.y + a.size.height / 2,
                                };
                                painter.paint_text(centre, clone_texts(&bw.text));
                                proof {
                                    assert(painter@ =~= old(painter)@ + paint_m(self@, origin));
                                }
                            },
                            crate::widgets::WidgetBehavior::Label(lw) => {
                                let centre = Position {
                                    x: shifted.x + a.size.width / 2,
                                    y: shifted.y + a.size.height / 2,
                                };
                                painter.paint_text(centre, clone_texts(&lw.text));
                                proof {
                                    assert(painter@ =~= old(painter)@ + paint_m(self@, origin));
                                }
                            },
                        }
                    },
                    None => vstd::pervasive::unreached(),
                }
            },
            WidgetTree::Layout(b) => {
                let ghost cs = trees_view(b.children@);
                let mut i: usize = 0;
                proof {
                    lemma_trees_view(b.children@);
                    assert(b.children@.subrange(0, 0) =~= Seq::<WidgetTree>::empty());
                    assert(trees_view(Seq::<WidgetTree>::empty()) =~= Seq::<NodeModel>::empty());
                    assert(old(painter)@ + paint_seq_m(Seq::<NodeModel>::empty(), origin)
                        =~= old(painter)@);
                }
                while i < b.children.len()
                    invariant
                        materialized(self@),
                        laid_out(self@),
                        pos_wf(origin),
                        *self is Layout,
                        (*self)->Layout_0 == b,
                        cs == trees_view(b.children@),
                        i <= b.children@.len(),
                        painter@ == old(painter)@ + paint_seq_m(
                            trees_view(b.children@.subrange(0, i as int)),
                            origin,
                        ),
                    decreases b.children@.len() - i,
                {
                    let c = &b.children[i];
                    proof {
                        lemma_trees_view(b.children@);
                        crate::view::lemma_all_forall(cs);
                        assert(*c == b.children@[i as int]);
                        assert(cs[i as int] == tree_view(b.children@[i as int]));
                        assert(materialized(cs[i as int]) && laid_out(cs[i as int]));
                        assert(decreases_to!(*self => (*self)->Layout_0));
                        assert(decreases_to!((*self)->Layout_0 => (*self)->Layout_0.children));
                        assert(decreases_to!(
                            (*self)->Layout_0.children => (*self)->Layout_0.children@));
                        assert(decreases_to!(
                            (*self)->Layout_0.children@
                                => (*self)->Layout_0.children@[i as int]));
                        assert((*self)->Layout_0.children@[i as int] == *c);
                    }
                    c.paint(origin, painter);
                    i = i + 1;
                    proof {
                        let pfx = b.children@.subrange(0, i - 1);
                        let pfx2 = b.children@.subrange(0, i as int);
                        lemma_trees_view(pfx);
                        lemma_trees_view(pfx2);
                        assert(pfx.push(b.children@[i - 1]) =~= pfx2);
                        let tv = trees_view(pfx);
                        let yy = tree_view(b.children@[i - 1]);
                        assert(trees_view(pfx2) =~= tv.push(yy));
                        assert(tv.push(yy).drop_last() =~= tv);
                        assert(tv.push(yy).last() == yy);
                        assert(painter@ =~= old(painter)@ + paint_seq_m(trees_view(pfx2), origin));
                    }
                }
                proof {
                    assert(b.children@.subrange(0, i as int) =~= b.children@);
                }
            },
        }
    }
}

} // verus!
