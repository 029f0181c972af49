//! Event dispatch: hit-testing against assigned rectangles, with scoped
//! access to the nearest enclosing view's user data.
//!
//! A view delegates to its materialized subtree, substituting its own
//! user data for whatever an ancestor passed down; a layout node descends
//! into the first child whose assigned rectangle contains the point and
//! then stops; a widget node receives the event if the point lies within
//! its rectangle, with the point translated into the widget's local
//! origin. Each event routes to at most one innermost widget.

use vstd::prelude::*;

use crate::events::{event_position, Event};
use crate::geom::{pos_wf, rect_contains, rect_wf, Position, Rect};
use crate::user_data::{Press, UserData, UserDataModel};
use crate::view::{
    laid_out, lemma_trees_view, materialized, node_allocation, tree_view, trees_view, LayoutNode,
    NodeModel, ViewNode, WidgetNode, WidgetTree,
};
use crate::widgets::button::ButtonWidgetModel;
use crate::widgets::{BehaviorModel, WidgetBehavior};

verus! {

broadcast use vstd::std_specs::vec::group_vec_axioms;

/// The rectangle a node occupies: a view's is its subtree's, a widget's
/// or layout's is its assigned allocation. Meaningful only on a laid-out
/// tree.
pub open spec fn node_rect(m: NodeModel) -> Rect
    decreases m,
{
    match m {
        NodeModel::View { subtree, .. } => match subtree {
            Some(w) => node_rect(*w),
            None => vstd::pervasive::arbitrary(),
        },
        NodeModel::Widget { allocation, .. } => match allocation {
            Some(r) => r,
            None => vstd::pervasive::arbitrary(),
        },
        NodeModel::Layout { allocation, .. } => match allocation {
            Some(r) => r,
            None => vstd::pervasive::arbitrary(),
        },
    }
}

/// What delivering an event to a widget behavior does: a button counts a
/// mouse press (saturating) and records it, with its tag and the local
/// point, in the scoped user data, if any; a label ignores events; mouse
/// releases are ignored by every current kind.
pub open spec fn behavior_event_m(
    b: BehaviorModel,
    data: Option<UserDataModel>,
    pos: Position,
    press: bool,
) -> (BehaviorModel, Option<UserDataModel>) {
    if press {
        match b {
            BehaviorModel::Button(bw) => (
                BehaviorModel::Button(
                    ButtonWidgetModel {
                        presses: if bw.presses < u64::MAX {
                            (bw.presses + 1) as u64
                        } else {
                            bw.presses
                        },
                        ..bw
                    },
                ),
                match data {
                    Some(u) => Some(
                        UserDataModel { presses: u.presses.push(Press { tag: bw.tag, pos }) },
                    ),
                    None => None,
                },
            ),
            BehaviorModel::Label(_) => (b, data),
        }
    } else {
        (b, data)
    }
}

/// What dispatching an event at `pos` through a node yields: the node
/// after delivery, and the user data handed back up.
pub open spec fn dispatch_m(
    m: NodeModel,
    pos: Position,
    data: Option<UserDataModel>,
    press: bool,
) -> (NodeModel, Option<UserDataModel>)
    decreases m, 1int,
{
    match m {
        NodeModel::View { view_id, subtree, user_data, logic } => match subtree {
            Some(w) => match user_data {
                Some(u) => {
                    let r = dispatch_m(*w, pos, Some(u), press);
                    (
                        NodeModel::View {
                            view_id,
                            subtree: Some(Box::new(r.0)),
                            user_data: r.1,
                            logic,
                        },
                        data,
                    )
                },
                None => {
                    let r = dispatch_m(*w, pos, data, press);
                    (
                        NodeModel::View {
                            view_id,
                            subtree: Some(Box::new(r.0)),
                            user_data: None,
                            logic,
                        },
                        r.1,
                    )
                },
            },
            None => (m, data),
        },
        NodeModel::Widget { key, allocation, children, widget } => match allocation {
            Some(rect) => if rect_contains(rect, pos) {
                let local = Position {
                    x: (pos.x - rect.origin.x) as i64,
                    y: (pos.y - rect.origin.y) as i64,
                };
                let r = behavior_event_m(widget, data, local, press);
                (NodeModel::Widget { key, allocation, children, widget: r.0 }, r.1)
            } else {
                (m, data)
            },
            None => (m, data),
        },
        NodeModel::Layout { allocation, children, layout } => {
            let r = dispatch_seq_m(children, pos, data, press);
            (NodeModel::Layout { allocation, children: r.0, layout }, r.1)
        },
    }
}

/// Dispatch through a child sequence: the first child whose rectangle
/// contains the point receives the event, and the search stops there;
/// every other child is untouched.
pub open spec fn dispatch_seq_m(
    s: Seq<NodeModel>,
    pos: Position,
    data: Option<UserDataModel>,
    press: bool,
) -> (Seq<NodeModel>, Option<UserDataModel>)
    decreases s, 0int,
{
    if s.len() == 0 {
        (s, data)
    } else {
        if rect_contains(node_rect(s.first()), pos) {
            let r = dispatch_m(s.first(), pos, data, press);
            (Seq::empty().push(r.0) + s.drop_first(), r.1)
        } else {
            let r = dispatch_seq_m(s.drop_first(), pos, data, press);
            (Seq::empty().push(s.first()) + r.0, r.1)
        }
    }
}

/// What feeding one toolkit event to the tree yields: the event's point
/// is hit-tested from the root, with no ambient user data.
pub open spec fn event_m(m: NodeModel, ev: Event) -> NodeModel {
    match ev {
        Event::MousePress(p) => dispatch_m(m, p, None, true).0,
        Event::MouseRelease(p) => dispatch_m(m, p, None, false).0,
    }
}

impl WidgetBehavior {
    /// Deliver one event to this behavior at the given local point.
    fn deliver(&mut self, data: Option<UserData>, pos: Position, press: bool) -> (r: Option<
        UserData,
    >)
        ensures
            final(self)@ == behavior_event_m(old(self)@, opt_view(data), pos, press).0,
            opt_view(r) == behavior_event_m(old(self)@, opt_view(data), pos, press).1,
    {
        if press {
            match self {
                WidgetBehavior::Button(bw) => {
                    if bw.presses < u64::MAX {
                        bw.presses = bw.presses + 1;
                    }
                    match data {
                        Some(mut u) => {
                            u.presses.push(Press { tag: bw.tag, pos });
                            Some(u)
                        },
                        None => None,
                    }
                },
                WidgetBehavior::Label(_) => data,
            }
        } else {
            data
        }
    }
}

/// The model of an optional user-data value.
pub open spec fn opt_view(d: Option<UserData>) -> Option<UserDataModel> {
    crate::view::opt_data_view(d)
}

impl WidgetTree {
    /// The rectangle this node occupies.
    pub fn rect(&self) -> (r: Rect)
        requires
            materialized(self@),
            laid_out(self@),
        ensures
            r == node_rect(self@),
            rect_wf(r),
        decreases *self,
    {
        match self {
            WidgetTree::View(b) => {
                match &b.widget {
                    Some(w) => {
                        proof {
                            assert(decreases_to!(*self => (*self)->View_0));
                            assert(decreases_to!((*self)->View_0 => (*self)->View_0.widget));
                            assert(decreases_to!(
                                (*self)->View_0.widget => (*self)->View_0.widget->Some_0));
                            assert((*self)->View_0.widget->Some_0 == *w);
                        }
                        w.rect()
                    },
                    None => vstd::pervasive::unreached(),
                }
            },
            WidgetTree::Widget(b) => {
                match &b.allocation {
                    Some(r) => *r,
                    None => vstd::pervasive::unreached(),
                }
            },
            WidgetTree::Layout(b) => {
                match &b.allocation {
                    Some(r) => *r,
                    None => vstd::pervasive::unreached(),
                }
            },
        }
    }

    /// Recursively dispatch (by value).
    fn dispatch_rec(self, pos: Position, data: Option<UserData>, press: bool) -> (r: (
        WidgetTree,
        Option<UserData>,
    ))
        requires
            materialized(self@),
            laid_out(self@),
            pos_wf(pos),
        ensures
            r.0@ == dispatch_m(self@, pos, opt_view(data), press).0,
            opt_view(r.1) == dispatch_m(self@, pos, opt_view(data), press).1,
        decreases self,
    {
        let ghost self_g = self;
        match self {
            WidgetTree::View(b) => {
                let node = *b;
                let view_id = node.view_id;
                let widget = node.widget;
                let user_data = node.user_data;
                let view = node.view;
                match widget {
                    Some(w) => {
                        proof {
                            assert(decreases_to!(self_g => self_g->View_0));
                            assert(decreases_to!(self_g->View_0 => self_g->View_0.widget));
                            assert(decreases_to!(
                                self_g->View_0.widget => self_g->View_0.widget->Some_0));
                            assert(self_g->View_0.widget->Some_0 == w);
                        }
                        match user_data {
                            Some(u) => {
                                let r = w.dispatch_rec(pos, Some(u), press);
                                let t = WidgetTree::View(
                                    Box::new(
                                        ViewNode {
                                            view_id,
                                            widget: Some(r.0),
                                            user_data: r.1,
                                            view,
                                        },
                                    ),
                                );
                                (t, data)
                            },
                            None => {
                                let r = w.dispatch_rec(pos, data, press);
                                let t = WidgetTree::View(
                                    Box::new(
                                        ViewNode {
                                            view_id,
                                            widget: Some(r.0),
                                            user_data: None,
                                            view,
                                        },
                                    ),
                                );
                                (t, r.1)
                            },
                        }
                    },
                    None => vstd::pervasive::unreached(),
                }
            },
            WidgetTree::Widget(b) => {
                let node = *b;
                let key = node.key;
                let allocation = node.allocation;
                let children = node.children;
                let mut widget = node.widget;
                match allocation {
                    Some(rect) => {
                        if rect.contains(pos) {
                            let local = Position {
                                x: pos.x - rect.origin.x,
                                y: pos.y - rect.origin.y,
                            };
                            let data2 = widget.deliver(data, local, press);
                            let t = WidgetTree::Widget(
                                Box::new(
                                    WidgetNode {
                                        key,
                                        allocation: Some(rect),
                                        children,
                                        widget,
                                    },
                                ),
                            );
                            (t, data2)
                        } else {
                            let t = WidgetTree::Widget(
                                Box::new(
                                    WidgetNode {
                                        key,
                                        allocation: Some(rect),
                                        children,
                                        widget,
                                    },
                                ),
                            );
                            proof {
                                assert(t@ == self_g@);
                            }
                            (t, data)
                        }
                    },
                    None => vstd::pervasive::unreached(),
                }
            },
            WidgetTree::Layout(b) => {
                let node = *b;
                let allocation = node.allocation;
                let mut children = node.children;
                let layout = node.layout;
                let ghost orig = children@;
                let ghost d0 = opt_view(data);
                let mut data_cur = data;
                let mut done = false;
                let mut out: Vec<WidgetTree> = Vec::new();
                let mut idx: usize = 0;
                proof {
                    vstd::std_specs::vec::axiom_spec_len(&children);
                    lemma_trees_view(orig);
                    crate::view::lemma_all_forall(trees_view(orig));
                    assert(trees_view(Seq::<WidgetTree>::empty()) =~= Seq::<NodeModel>::empty());
                    assert(trees_view(out@) =~= Seq::<NodeModel>::empty());
                    assert(dispatch_seq_m(trees_view(orig), pos, d0, press).0 =~= trees_view(out@)
                        + dispatch_seq_m(trees_view(orig), pos, d0, press).0);
                }
                while children.len() > 0
                    invariant
                        self_g == self,
                        pos_wf(pos),
                        orig.len() <= usize::MAX,
                        idx + children@.len() == orig.len(),
                        children@ == orig.subrange(idx as int, orig.len() as int),
                        out@.len() == idx,
                        self_g is Layout,
                        self_g->Layout_0.children@ == orig,
                        forall|j: int|
                            0 <= j < orig.len() ==> materialized(#[trigger] trees_view(orig)[j])
                                && laid_out(trees_view(orig)[j]),
                        done ==> dispatch_seq_m(trees_view(orig), pos, d0, press).0
                            == trees_view(out@) + trees_view(children@),
                        done ==> dispatch_seq_m(trees_view(orig), pos, d0, press).1 == opt_view(
                            data_cur,
                        ),
                        !done ==> opt_view(data_cur) == d0,
                        !done ==> dispatch_seq_m(trees_view(orig), pos, d0, press).0
                            == trees_view(out@) + dispatch_seq_m(
                            trees_view(children@),
                            pos,
                            d0,
                            press,
                        ).0,
                        !done ==> dispatch_seq_m(trees_view(orig), pos, d0, press).1
                            == dispatch_seq_m(trees_view(children@), pos, d0, press).1,
                    decreases children@.len(),
                {
                    let c = children.remove(0);
                    proof {
                        assert(c == orig[idx as int]);
                        assert(children@ =~= orig.subrange(idx + 1, orig.len() as int));
                        assert(decreases_to!(self_g => self_g->Layout_0));
                        assert(decreases_to!(self_g->Layout_0 => self_g->Layout_0.children));
                        assert(decreases_to!(
                            self_g->Layout_0.children => self_g->Layout_0.children@));
                        assert(decreases_to!(
                            self_g->Layout_0.children@ => self_g->Layout_0.children@[idx as int]));
                        assert(decreases_to!(self_g => c));
                        lemma_trees_view(orig);
                        assert(trees_view(orig)[idx as int] == tree_view(orig[idx as int]));
                        assert(materialized(c@) && laid_out(c@));
                    }
                    let ghost pre_children = children@;
                    let ghost pre_out = out@;
                    let ghost pre_data = opt_view(data_cur);
                    let ghost pre_done = done;
                    let hit = !done && c.rect().contains(pos);
                    if hit {
                        let r = c.dispatch_rec(pos, data_cur, press);
                        out.push(r.0);
                        data_cur = r.1;
                        done = true;
                    } else {
                        out.push(c);
                    }
                    idx = idx + 1;
                    proof {
                        let old_rem = trees_view(orig.subrange(idx - 1, orig.len() as int));
                        lemma_trees_view(orig.subrange(idx - 1, orig.len() as int));
                        lemma_trees_view(pre_children);
                        assert(old_rem.len() > 0);
                        assert(old_rem.first() == tree_view(c));
                        assert(old_rem.drop_first() =~= trees_view(pre_children));
                        assert(out@.drop_last() =~= pre_out);
                        assert(trees_view(out@) =~= trees_view(pre_out).push(tree_view(out@.last())));
                        if pre_done {
                            assert(trees_view(pre_out) + old_rem =~= trees_view(out@)
                                + trees_view(children@));
                        } else {
                            if hit {
                                assert(dispatch_seq_m(old_rem, pos, d0, press).0
                                    == Seq::empty().push(
                                    dispatch_m(tree_view(c), pos, d0, press).0,
                                ) + old_rem.drop_first());
                                assert(trees_view(pre_out) + dispatch_seq_m(
                                    old_rem,
                                    pos,
                                    d0,
                                    press,
                                ).0 =~= trees_view(out@) + trees_view(children@));
                            } else {
                                assert(dispatch_seq_m(old_rem, pos, d0, press).0
                                    == Seq::empty().push(tree_view(c)) + dispatch_seq_m(
                                    old_rem.drop_first(),
                                    pos,
                                    d0,
                                    press,
                                ).0);
                                assert(trees_view(pre_out) + dispatch_seq_m(
                                    old_rem,
                                    pos,
                                    d0,
                                    press,
                                ).0 =~= trees_view(out@) + dispatch_seq_m(
                                    trees_view(children@),
                                    pos,
                                    d0,
                                    press,
                                ).0);
                            }
                        }
                    }
                }
                proof {
                    assert(children@ =~= Seq::<WidgetTree>::empty());
                    assert(trees_view(children@) =~= Seq::<NodeModel>::empty());
                    if !done {
                        assert(dispatch_seq_m(Seq::<NodeModel>::empty(), pos, d0, press).0
                            =~= Seq::<NodeModel>::empty());
                    }
                    assert(dispatch_seq_m(trees_view(orig), pos, d0, press).0 =~= trees_view(
                        out@,
                    ));
                }
                let t = WidgetTree::Layout(
                    Box::new(LayoutNode { allocation, children: out, layout }),
                );
                (t, data_cur)
            },
        }
    }

    /// Feed one toolkit event to the tree: the event's point is
    /// hit-tested from the root and delivered to the innermost widget
    /// whose rectangle contains it, with the nearest enclosing view's
    /// user data in scope — or to none, if no rectangle contains it.
    pub fn event(&mut self, event: Event)
        requires
            materialized(old(self)@),
            laid_out(old(self)@),
            pos_wf(event_position(event)),
        ensures
            final(self)@ == event_m(old(self)@, event),
    {
        let mut tmp = WidgetTree::placeholder_for_event();
        core::mem::swap(self, &mut tmp);
        let press = match &event {
            Event::MousePress(_) => true,
            Event::MouseRelease(_) => false,
        };
        let pos = event.position();
        let r = tmp.dispatch_rec(pos, None, press);
        let mut done = r.0;
        core::mem::swap(self, &mut done);
    }

    /// A placeholder node used only to swap a tree out of a mutable
    /// reference.
    fn placeholder_for_event() -> WidgetTree {
        WidgetTree::Layout(
            Box::new(
                LayoutNode {
                    allocation: None,
                    children: Vec::new(),
                    layout: crate::widgets::box_layout::LayoutPolicy::VStack,
                },
            ),
        )
    }
}

} // verus!
