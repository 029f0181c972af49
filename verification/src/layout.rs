//! The layout protocol: bottom-up size negotiation and top-down rect
//! assignment.
//!
//! `size_hint` reports a node's natural size from its children's hints;
//! `set_rect` assigns the rectangle a parent chose and delegates to the
//! node's layout policy to place its children. The vertical stack places
//! each child below the previous one by the previous child's hinted
//! height, at horizontal origin 0 and the child's own hinted size; the
//! container's assigned size does not stretch the children. All extents
//! are clamped to the coordinate grid, so layout never overflows.

use vstd::prelude::*;

use crate::geom::{pos_wf, rect_wf, size_wf, Position, Rect, Size, COORD_LIMIT};
use crate::view::{
    all_laid_out, all_materialized, laid_out, lemma_all_element, lemma_trees_view, logics_ok,
    materialized, subtrees_flat, tree_view, tree_wf, trees_view, view_count, view_count_seq,
    LayoutNode, NodeModel, ViewNode, WidgetNode, WidgetTree,
};
use crate::widgets::behavior_hint;

verus! {

broadcast use vstd::std_specs::vec::group_vec_axioms;

/// An extent clamped into the coordinate grid.
pub open spec fn clamp_len(x: int) -> int {
    if x < 0 {
        0
    } else if x > COORD_LIMIT {
        COORD_LIMIT as int
    } else {
        x
    }
}

/// Addition of extents, saturating at the edge of the grid.
pub open spec fn cap_add(a: int, b: int) -> int {
    if a + b > COORD_LIMIT {
        COORD_LIMIT as int
    } else {
        a + b
    }
}

/// A node's natural size, as (width, height): a view reports its
/// subtree's, a widget its behavior's (clamped to the grid), a layout
/// node its policy's combination of the children's hints.
pub open spec fn hint_m(m: NodeModel) -> (int, int)
    decreases m, 1int,
{
    match m {
        NodeModel::View { subtree, .. } => match subtree {
            Some(w) => hint_m(*w),
            None => (0int, 0int),
        },
        NodeModel::Widget { widget, .. } => (
            clamp_len(behavior_hint(widget).width as int),
            clamp_len(behavior_hint(widget).height as int),
        ),
        NodeModel::Layout { children, .. } => vstack_hint(children),
    }
}

/// The vertical stack's hint: the maximum of the children's hinted
/// widths, and the (saturating) sum of their hinted heights.
pub open spec fn vstack_hint(s: Seq<NodeModel>) -> (int, int)
    decreases s, 0int,
{
    if s.len() == 0 {
        (0int, 0int)
    } else {
        let rest = vstack_hint(s.drop_last());
        let c = hint_m(s.last());
        (if c.0 > rest.0 { c.0 } else { rest.0 }, cap_add(rest.1, c.1))
    }
}

/// Natural sizes stay on the grid.
pub proof fn lemma_hint_bounds(m: NodeModel)
    ensures
        0 <= hint_m(m).0 <= COORD_LIMIT,
        0 <= hint_m(m).1 <= COORD_LIMIT,
    decreases m, 1int,
{
    match m {
        NodeModel::View { subtree, .. } => match subtree {
            Some(w) => {
                lemma_hint_bounds(*w);
            },
            None => {},
        },
        NodeModel::Widget { .. } => {},
        NodeModel::Layout { children, .. } => {
            lemma_vstack_hint_bounds(children);
        },
    }
}

/// Sequence form of [`lemma_hint_bounds`].
pub proof fn lemma_vstack_hint_bounds(s: Seq<NodeModel>)
    ensures
        0 <= vstack_hint(s).0 <= COORD_LIMIT,
        0 <= vstack_hint(s).1 <= COORD_LIMIT,
    decreases s, 0int,
{
    if s.len() > 0 {
        lemma_vstack_hint_bounds(s.drop_last());
        lemma_hint_bounds(s.last());
    }
}

/// What assigning a rectangle to a node yields: the node stores the
/// rectangle; a view delegates to its subtree; a layout node runs its
/// policy over the children.
pub open spec fn set_rect_m(m: NodeModel, rect: Rect) -> NodeModel
    decreases m, 1int,
{
    match m {
        NodeModel::View { view_id, subtree, user_data, logic } => NodeModel::View {
            view_id,
            subtree: match subtree {
                Some(w) => Some(Box::new(set_rect_m(*w, rect))),
                None => None,
            },
            user_data,
            logic,
        },
        NodeModel::Widget { key, allocation, children, widget } => NodeModel::Widget {
            key,
            allocation: Some(rect),
            children,
            widget,
        },
        NodeModel::Layout { allocation, children, layout } => NodeModel::Layout {
            allocation: Some(rect),
            children: vstack_layout_from(children, 0),
            layout,
        },
    }
}

/// Place each child of a vertical stack, the first at vertical offset
/// `y`, each next below the previous by the previous child's hinted
/// height; every child is assigned its own hinted size at horizontal
/// origin 0. The container's size plays no part.
pub open spec fn vstack_layout_from(s: Seq<NodeModel>, y: int) -> Seq<NodeModel>
    decreases s, 0int,
{
    if s.len() == 0 {
        Seq::empty()
    } else {
        let c = s.first();
        let h = hint_m(c);
        let r = Rect {
            origin: Position { x: 0, y: y as i64 },
            size: Size { width: h.0 as i64, height: h.1 as i64 },
        };
        Seq::empty().push(set_rect_m(c, r)) + vstack_layout_from(s.drop_first(), cap_add(y, h.1))
    }
}

/// Assigning a well-formed rectangle lays the tree out and disturbs
/// nothing else: materialization, view logic, flatness and the set of
/// views are untouched.
pub proof fn lemma_set_rect_props(m: NodeModel, rect: Rect)
    requires
        materialized(m),
        logics_ok(m),
        subtrees_flat(m),
        rect_wf(rect),
    ensures
        laid_out(set_rect_m(m, rect)),
        materialized(set_rect_m(m, rect)),
        logics_ok(set_rect_m(m, rect)),
        subtrees_flat(set_rect_m(m, rect)),
        view_count(set_rect_m(m, rect)) == view_count(m),
    decreases m, 1int,
{
    match m {
        NodeModel::View { subtree, .. } => {
            match subtree {
                Some(w) => {
                    crate::view::lemma_no_views_props(*w);
                    lemma_set_rect_props(*w, rect);
                },
                None => {},
            }
        },
        NodeModel::Widget { .. } => {},
        NodeModel::Layout { children, .. } => {
            crate::view::lemma_all_forall(children);
            lemma_vstack_layout_props(children, 0);
            let res = vstack_layout_from(children, 0);
            crate::view::lemma_all_forall(res);
            crate::view::lemma_count_seq_elementwise(res, children);
        },
    }
}

/// Placing the children of a vertical stack lays each one out at its own
/// hinted size, preserving everything else.
pub proof fn lemma_vstack_layout_props(s: Seq<NodeModel>, y: int)
    requires
        forall|i: int|
            0 <= i < s.len() ==> materialized(#[trigger] s[i]) && logics_ok(s[i])
                && subtrees_flat(s[i]),
        0 <= y <= COORD_LIMIT,
    ensures
        vstack_layout_from(s, y).len() == s.len(),
        forall|i: int|
            0 <= i < s.len() ==> {
                let r = #[trigger] vstack_layout_from(s, y)[i];
                &&& laid_out(r)
                &&& materialized(r)
                &&& logics_ok(r)
                &&& subtrees_flat(r)
                &&& view_count(r) == view_count(s[i])
            },
    decreases s, 0int,
{
    if s.len() > 0 {
        let c = s.first();
        let h = hint_m(c);
        lemma_hint_bounds(c);
        let r = Rect {
            origin: Position { x: 0, y: y as i64 },
            size: Size { width: h.0 as i64, height: h.1 as i64 },
        };
        assert(rect_wf(r));
        lemma_set_rect_props(c, r);
        assert(forall|i: int|
            0 <= i < s.drop_first().len() ==> #[trigger] s.drop_first()[i] == s[i + 1]);
        lemma_vstack_layout_props(s.drop_first(), cap_add(y, h.1));
        let res = vstack_layout_from(s, y);
        let rest = vstack_layout_from(s.drop_first(), cap_add(y, h.1));
        assert(res == Seq::empty().push(set_rect_m(c, r)) + rest);
        assert(res[0] == set_rect_m(c, r));
        assert(forall|i: int| 0 <= i < rest.len() ==> #[trigger] res[i + 1] == rest[i]);
        assert forall|i: int| 0 <= i < s.len() implies {
            let q = #[trigger] vstack_layout_from(s, y)[i];
            &&& laid_out(q)
            &&& materialized(q)
            &&& logics_ok(q)
            &&& subtrees_flat(q)
            &&& view_count(q) == view_count(s[i])
        } by {
            if i > 0 {
                assert(res[i] == rest[i - 1]);
                assert(s.drop_first()[i - 1] == s[i]);
            }
        }
    }
}

/// An extent clamped into the coordinate grid.
fn clamp_exec(x: i64) -> (r: i64)
    ensures
        r as int == clamp_len(x as int),
{
    if x < 0 {
        0
    } else if x > COORD_LIMIT {
        COORD_LIMIT
    } else {
        x
    }
}

impl WidgetTree {
    /// The node's self-reported natural size: a view delegates to its
    /// materialized subtree, a widget reports its behavior's hint, a
    /// vertical stack reports (max child width, sum of child heights).
    pub fn size_hint(&self) -> (s: Size)
        requires
            materialized(self@),
        ensures
            s.width as int == hint_m(self@).0,
            s.height as int == hint_m(self@).1,
            size_wf(s),
        decreases *self,
    {
        proof {
            lemma_hint_bounds(self@);
        }
        match self {
            WidgetTree::View(b) => {
                match &b.widget {
                    Some(w) => {
                        proof {
                            assert(decreases_to!(*self => (*self)->View_0));
                            assert(decreases_to!((*self)->View_0 => (*self)->View_0.widget));
                            assert(decreases_to!(
                                (*self)->View_0.widget => (*self)->View_0.widget->Some_0));
                            assert((*self)->View_0.widget->Some_0 == *w);
                        }
                        w.size_hint()
                    },
                    None => vstd::pervasive::unreached(),
                }
            },
            WidgetTree::Widget(b) => {
                let h = b.widget.hint();
                Size { width: clamp_exec(h.width), height: clamp_exec(h.height) }
            },
            WidgetTree::Layout(b) => {
                let ghost cs = trees_view(b.children@);
                let mut w: i64 = 0;
                let mut h: i64 = 0;
                let mut i: usize = 0;
                proof {
                    lemma_trees_view(b.children@);
                    assert(b.children@.subrange(0, 0) =~= Seq::<WidgetTree>::empty());
                    assert(trees_view(Seq::<WidgetTree>::empty()) =~= Seq::<NodeModel>::empty());
                }
                while i < b.children.len()
                    invariant
                        materialized(self@),
                        *self is Layout,
                        (*self)->Layout_0 == b,
                        cs == trees_view(b.children@),
                        i <= b.children@.len(),
                        0 <= w <= COORD_LIMIT,
                        0 <= h <= COORD_LIMIT,
                        w as int == vstack_hint(trees_view(b.children@.subrange(0, i as int))).0,
                        h as int == vstack_hint(trees_view(b.children@.subrange(0, i as int))).1,
                    decreases b.children@.len() - i,
                {
                    let c = &b.children[i];
                    proof {
                        lemma_trees_view(b.children@);
                        crate::view::lemma_all_forall(cs);
                        assert(*c == b.children@[i as int]);
                        assert(cs[i as int] == tree_view(b.children@[i as int]));
                        assert(materialized(cs[i as int]));
                        assert(materialized(c@));
                        assert(decreases_to!(*self => (*self)->Layout_0));
                        assert(decreases_to!((*self)->Layout_0 => (*self)->Layout_0.children));
                        assert(decreases_to!(
                            (*self)->Layout_0.children => (*self)->Layout_0.children@));
                        assert(decreases_to!(
                            (*self)->Layout_0.children@
                                => (*self)->Layout_0.children@[i as int]));
                        assert((*self)->Layout_0.children@[i as int] == *c);
                    }
                    let ch = c.size_hint();
                    proof {
                        lemma_hint_bounds(c@);
                    }
                    if ch.width > w {
                        w = ch.width;
                    }
                    if h + ch.height > COORD_LIMIT {
                        h = COORD_LIMIT;
                    } else {
                        h = h + ch.height;
                    }
                    i = i + 1;
                    proof {
                        let pfx = b.children@.subrange(0, i - 1);
                        let pfx2 = b.children@.subrange(0, i as int);
                        lemma_trees_view(pfx);
                        lemma_trees_view(pfx2);
                        assert(pfx.push(b.children@[i - 1]) =~= pfx2);
                        let tv = trees_view(pfx);
                        let yy = tree_view(b.children@[i - 1]);
                        assert(trees_view(pfx2) =~= tv.push(yy));
                        assert(tv.push(yy).drop_last() =~= tv);
                        assert(tv.push(yy).last() == yy);
                    }
                }
                proof {
                    assert(b.children@.subrange(0, i as int) =~= b.children@);
                }
                Size { width: w, height: h }
            },
        }
    }

    /// Recursively assign rectangles (by value): the node stores `rect`,
    /// a view delegates to its subtree, a layout node places its
    /// children by its policy.
    fn set_rect_rec(self, rect: Rect) -> (r: WidgetTree)
        requires
            materialized(self@),
        ensures
            r@ == set_rect_m(self@, rect),
        decreases self,
    {
        let ghost self_g = self;
        match self {
            WidgetTree::View(b) => {
                let node = *b;
                let view_id = node.view_id;
                let widget = node.widget;
                let user_data = node.user_data;
                let view = node.view;
                match widget {
                    Some(w) => {
                        proof {
                            assert(decreases_to!(self_g => self_g->View_0));
                            assert(decreases_to!(self_g->View_0 => self_g->View_0.widget));
                            assert(decreases_to!(
                                self_g->View_0.widget => self_g->View_0.widget->Some_0));
                            assert(self_g->View_0.widget->Some_0 == w);
                        }
                        let w2 = w.set_rect_rec(rect);
                        WidgetTree::View(
                            Box::new(ViewNode { view_id, widget: Some(w2), user_data, view }),
                        )
                    },
                    None => vstd::pervasive::unreached(),
                }
            },
            WidgetTree::Widget(b) => {
                let node = *b;
                WidgetTree::Widget(
                    Box::new(
                        WidgetNode {
                            key: node.key,
                            allocation: Some(rect),
                            children: node.children,
                            widget: node.widget,
                        },
                    ),
                )
            },
            WidgetTree::Layout(b) => {
                let node = *b;
                let allocation = node.allocation;
                let mut children = node.children;
                let layout = node.layout;
                let ghost orig = children@;
                let mut out: Vec<WidgetTree> = Vec::new();
                let mut y: i64 = 0;
                let mut idx: usize = 0;
                proof {
                    vstd::std_specs::vec::axiom_spec_len(&children);
                    lemma_trees_view(orig);
                    crate::view::lemma_all_forall(trees_view(orig));
                    assert(trees_view(Seq::<WidgetTree>::empty()) =~= Seq::<NodeModel>::empty());
                    assert(trees_view(out@) =~= Seq::<NodeModel>::empty());
                    assert(vstack_layout_from(trees_view(orig), 0) =~= trees_view(out@)
                        + vstack_layout_from(trees_view(orig), 0));
                }
                while children.len() > 0
                    invariant
                        self_g == self,
                        orig.len() <= usize::MAX,
                        idx + children@.len() == orig.len(),
                        children@ == orig.subrange(idx as int, orig.len() as int),
                        out@.len() == idx,
                        self_g is Layout,
                        self_g->Layout_0.children@ == orig,
                        forall|j: int|
                            0 <= j < orig.len() ==> materialized(
                                #[trigger] trees_view(orig)[j],
                            ),
                        0 <= y <= COORD_LIMIT,
                        vstack_layout_from(trees_view(orig), 0) == trees_view(out@)
                            + vstack_layout_from(trees_view(children@), y as int),
                    decreases children@.len(),
                {
                    let c = children.remove(0);
                    proof {
                        assert(c == orig[idx as int]);
                        assert(children@ =~= orig.subrange(idx + 1, orig.len() as int));
                        assert(decreases_to!(self_g => self_g->Layout_0));
                        assert(decreases_to!(self_g->Layout_0 => self_g->Layout_0.children));
                        assert(decreases_to!(
                            self_g->Layout_0.children => self_g->Layout_0.children@));
                        assert(decreases_to!(
                            self_g->Layout_0.children@ => self_g->Layout_0.children@[idx as int]));
                        assert(decreases_to!(self_g => c));
                        lemma_trees_view(orig);
                        assert(trees_view(orig)[idx as int] == tree_view(orig[idx as int]));
                        assert(materialized(trees_view(orig)[idx as int]));
                        assert(materialized(c@));
                        lemma_hint_bounds(c@);
                    }
                    let h = c.size_hint();
                    let child_rect = Rect {
                        origin: Position { x: 0, y },
                        size: Size { width: h.width, height: h.height },
                    };
                    let ghost pre_children = children@;
                    let ghost pre_out = out@;
                    let ghost pre_y = y as int;
                    let placed = c.set_rect_rec(child_rect);
                    out.push(placed);
                    if y + h.height > COORD_LIMIT {
                        y = COORD_LIMIT;
                    } else {
                        y = y + h.height;
                    }
                    idx = idx + 1;
                    proof {
                        let ghost old_rem = trees_view(orig.subrange(idx - 1, orig.len() as int));
                        lemma_trees_view(orig.subrange(idx - 1, orig.len() as int));
                        lemma_trees_view(pre_children);
                        assert(old_rem.len() > 0);
                        assert(old_rem.first() == tree_view(c));
                        assert(old_rem.drop_first() =~= trees_view(pre_children));
                        assert(vstack_layout_from(old_rem, pre_y) == Seq::empty().push(
                            set_rect_m(tree_view(c), child_rect),
                        ) + vstack_layout_from(trees_view(pre_children), cap_add(pre_y, hint_m(tree_view(c)).1)));
                        assert(y as int == cap_add(pre_y, hint_m(tree_view(c)).1));
                        assert(out@.drop_last() =~= pre_out);
                        assert(trees_view(out@) =~= trees_view(pre_out).push(tree_view(out@.last())));
                        assert(trees_view(pre_out) + vstack_layout_from(old_rem, pre_y)
                            =~= trees_view(out@) + vstack_layout_from(
                            trees_view(children@),
                            y as int,
                        ));
                    }
                }
                proof {
                    assert(children@ =~= Seq::<WidgetTree>::empty());
                    assert(trees_view(children@) =~= Seq::<NodeModel>::empty());
                    assert(vstack_layout_from(Seq::<NodeModel>::empty(), y as int)
                        =~= Seq::<NodeModel>::empty());
                    assert(vstack_layout_from(trees_view(orig), 0) =~= trees_view(out@));
                }
                WidgetTree::Layout(
                    Box::new(LayoutNode { allocation: Some(rect), children: out, layout }),
                )
            },
        }
    }

    /// Assign this tree's rectangle and lay out every descendant: each
    /// layout node's policy places its children, top down, from the sizes
    /// the children report.
    pub fn set_rect(&mut self, rect: Rect)
        requires
            materialized(old(self)@),
            tree_wf(old(self)@),
            rect_wf(rect),
        ensures
            final(self)@ == set_rect_m(old(self)@, rect),
            laid_out(final(self)@),
            materialized(final(self)@),
            tree_wf(final(self)@),
    {
        let mut tmp = WidgetTree::placeholder_node();
        core::mem::swap(self, &mut tmp);
        let mut done = tmp.set_rect_rec(rect);
        proof {
            lemma_set_rect_props(old(self)@, rect);
        }
        core::mem::swap(self, &mut done);
    }

    /// A placeholder node used only to swap a tree out of a mutable
    /// reference.
    fn placeholder_node() -> WidgetTree {
        WidgetTree::Layout(
            Box::new(
                LayoutNode {
                    allocation: None,
                    children: Vec::new(),
                    layout: crate::widgets::box_layout::LayoutPolicy::VStack,
                },
            ),
        )
    }
}

/// Law (layout determinism): the rectangle a parent assigns to a vertical
/// stack plays no part in where the stack's children are placed — only
/// the children's own hints do.
pub proof fn lemma_layout_container_independent(m: NodeModel, r1: Rect, r2: Rect)
    requires
        m is Layout,
    ensures
        crate::view::node_children(set_rect_m(m, r1)) == crate::view::node_children(
            set_rect_m(m, r2),
        ),
{
}

} // verus!
