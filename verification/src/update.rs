//! Materialization and dirty-scoped update of the retained tree.
//!
//! `materialize` lazily builds each view's subtree on first use. `update`
//! rebuilds exactly the views whose identities are in the drained dirty
//! set: the old subtree is deconstructed into a reconciliation cache
//! (keyed widget nodes only — view wrappers and layout nodes do not
//! persist across rebuilds), the view logic produces one description,
//! and the description is built through that cache; unclaimed entries are
//! dropped. Siblings of a dirty view are left untouched.

use vstd::prelude::*;

use crate::app::DirtySet;
use crate::cache::{cache_val_ok, WidgetCache};
use crate::description::WidgetKey;
use crate::reconcile::{build_m, cache_ok, lemma_build_m_ok};
use crate::view::{
    lemma_no_views_props, lemma_trees_view, lemma_view_count_seq_element, logics_ok, materialized,
    produce_model, subtrees_flat, tree_view, tree_wf, trees_view, view_count, view_count_seq,
    NodeModel, ViewNode, WidgetTree, WidgetTreeFactory,
};

verus! {

broadcast use vstd::std_specs::vec::group_vec_axioms;

/// What deconstructing a node into a cache yields: its keyed widget
/// descendants, children drained first (so a cached node's own children
/// are cleared), each stored under its identity; view nodes and their
/// subtrees do not persist.
pub open spec fn decon_m(m: NodeModel, acc: Map<WidgetKey, NodeModel>) -> Map<
    WidgetKey,
    NodeModel,
>
    decreases m, 1int,
{
    match m {
        NodeModel::View { .. } => acc,
        NodeModel::Widget { key, allocation, children, widget } => {
            let acc2 = decon_seq_m(children, acc);
            match key {
                Some(k) => acc2.insert(
                    k,
                    NodeModel::Widget { key, allocation, children: Seq::empty(), widget },
                ),
                None => acc2,
            }
        },
        NodeModel::Layout { children, .. } => decon_seq_m(children, acc),
    }
}

/// Deconstruct a sequence of nodes left to right.
pub open spec fn decon_seq_m(s: Seq<NodeModel>, acc: Map<WidgetKey, NodeModel>) -> Map<
    WidgetKey,
    NodeModel,
>
    decreases s, 0int,
{
    if s.len() == 0 {
        acc
    } else {
        decon_seq_m(s.drop_first(), decon_m(s.first(), acc))
    }
}

/// Deconstruction only adds childless widget nodes to the cache.
pub proof fn lemma_decon_m_ok(m: NodeModel, acc: Map<WidgetKey, NodeModel>)
    requires
        cache_ok(acc),
    ensures
        cache_ok(decon_m(m, acc)),
    decreases m, 1int,
{
    match m {
        NodeModel::View { .. } => {},
        NodeModel::Widget { key, allocation, children, widget } => {
            lemma_decon_seq_m_ok(children, acc);
            match key {
                Some(k) => {
                    let cleared = NodeModel::Widget {
                        key,
                        allocation,
                        children: Seq::empty(),
                        widget,
                    };
                    assert(view_count_seq(Seq::<NodeModel>::empty()) == 0);
                    assert(cache_val_ok(cleared));
                },
                None => {},
            }
        },
        NodeModel::Layout { children, .. } => {
            lemma_decon_seq_m_ok(children, acc);
        },
    }
}

/// Sequence form of [`lemma_decon_m_ok`].
pub proof fn lemma_decon_seq_m_ok(s: Seq<NodeModel>, acc: Map<WidgetKey, NodeModel>)
    requires
        cache_ok(acc),
    ensures
        cache_ok(decon_seq_m(s, acc)),
    decreases s, 0int,
{
    if s.len() > 0 {
        lemma_decon_m_ok(s.first(), acc);
        lemma_decon_seq_m_ok(s.drop_first(), decon_m(s.first(), acc));
    }
}

/// What materializing a node yields: a view whose subtree is absent
/// invokes its logic once, builds the produced description through an
/// empty cache, recursively materializes the result and stores it; a view
/// already materialized is left as it stands; other nodes materialize
/// their children.
pub open spec fn mat_m(m: NodeModel) -> NodeModel
    decreases view_count(m), m, 1int,
    via mat_m_decreases
{
    match m {
        NodeModel::View { view_id, subtree, user_data, logic } => match subtree {
            Some(_) => m,
            None => {
                let p = produce_model(logic);
                let b = build_m(Map::empty(), p.0);
                let t2 = mat_m(b.0);
                NodeModel::View {
                    view_id,
                    subtree: Some(Box::new(t2)),
                    user_data,
                    logic: p.1,
                }
            },
        },
        NodeModel::Widget { key, allocation, children, widget } => NodeModel::Widget {
            key,
            allocation,
            children: mat_seq_m(children),
            widget,
        },
        NodeModel::Layout { allocation, children, layout } => NodeModel::Layout {
            allocation,
            children: mat_seq_m(children),
            layout,
        },
    }
}

/// Materialize each node of a sequence.
pub open spec fn mat_seq_m(s: Seq<NodeModel>) -> Seq<NodeModel>
    decreases view_count_seq(s), s, 0int,
    via mat_seq_m_decreases
{
    if s.len() == 0 {
        Seq::empty()
    } else {
        mat_seq_m(s.drop_last()).push(mat_m(s.last()))
    }
}

#[via_fn]
proof fn mat_m_decreases(m: NodeModel) {
    match m {
        NodeModel::View { view_id, subtree, user_data, logic } => {
            if subtree is None {
                let p = produce_model(logic);
                assert(cache_ok(Map::<WidgetKey, NodeModel>::empty()));
                lemma_build_m_ok(Map::empty(), p.0);
            }
        },
        _ => {},
    }
}

#[via_fn]
proof fn mat_seq_m_decreases(s: Seq<NodeModel>) {
    if s.len() > 0 {
        assert(view_count_seq(s) == view_count_seq(s.drop_last()) + view_count(s.last()));
    }
}

/// What updating a node against the drained dirty set yields, along with
/// whether anything in the subtree changed. A dirty view deconstructs its
/// subtree into a cache, invokes its logic, builds the description
/// through the cache, recursively updates the freshly built subtree and
/// reports a change; a clean view recurses and propagates; widget nodes
/// report no change; layout nodes update their children in order.
pub open spec fn upd_m(m: NodeModel, dirty: Set<u64>) -> (NodeModel, bool)
    decreases view_count(m), m, 1int,
    via upd_m_decreases
{
    match m {
        NodeModel::View { view_id, subtree, user_data, logic } => {
            if dirty.contains(view_id) {
                let cache = match subtree {
                    Some(w) => decon_m(*w, Map::empty()),
                    None => Map::empty(),
                };
                let p = produce_model(logic);
                let b = build_m(cache, p.0);
                let r = upd_m(b.0, dirty);
                (
                    NodeModel::View {
                        view_id,
                        subtree: Some(Box::new(r.0)),
                        user_data,
                        logic: p.1,
                    },
                    true,
                )
            } else {
                match subtree {
                    Some(w) => {
                        let r = upd_m(*w, dirty);
                        (
                            NodeModel::View {
                                view_id,
                                subtree: Some(Box::new(r.0)),
                                user_data,
                                logic,
                            },
                            r.1,
                        )
                    },
                    None => (m, false),
                }
            }
        },
        NodeModel::Widget { .. } => (m, false),
        NodeModel::Layout { allocation, children, layout } => {
            let r = upd_seq_m(children, dirty);
            (NodeModel::Layout { allocation, children: r.0, layout }, r.1)
        },
    }
}

/// Update each node of a sequence; the change flag is the disjunction.
pub open spec fn upd_seq_m(s: Seq<NodeModel>, dirty: Set<u64>) -> (Seq<NodeModel>, bool)
    decreases view_count_seq(s), s, 0int,
    via upd_seq_m_decreases
{
    if s.len() == 0 {
        (Seq::empty(), false)
    } else {
        let r0 = upd_seq_m(s.drop_last(), dirty);
        let r1 = upd_m(s.last(), dirty);
        (r0.0.push(r1.0), r0.1 || r1.1)
    }
}

#[via_fn]
proof fn upd_m_decreases(m: NodeModel, dirty: Set<u64>) {
    match m {
        NodeModel::View { view_id, subtree, user_data, logic } => {
            if dirty.contains(view_id) {
                let cache = match subtree {
                    Some(w) => decon_m(*w, Map::empty()),
                    None => Map::<WidgetKey, NodeModel>::empty(),
                };
                assert(cache_ok(Map::<WidgetKey, NodeModel>::empty()));
                match subtree {
                    Some(w) => {
                        lemma_decon_m_ok(*w, Map::empty());
                    },
                    None => {},
                }
                let p = produce_model(logic);
                lemma_build_m_ok(cache, p.0);
            }
        },
        _ => {},
    }
}

#[via_fn]
proof fn upd_seq_m_decreases(s: Seq<NodeModel>, dirty: Set<u64>) {
    if s.len() > 0 {
        assert(view_count_seq(s) == view_count_seq(s.drop_last()) + view_count(s.last()));
    }
}

/// Materialization establishes `materialized` and preserves the tree's
/// well-formedness.
pub proof fn lemma_mat_m_props(m: NodeModel)
    requires
        tree_wf(m),
    ensures
        materialized(mat_m(m)),
        tree_wf(mat_m(m)),
        view_count(mat_m(m)) == view_count(m),
    decreases view_count(m), m, 1int,
{
    match m {
        NodeModel::View { view_id, subtree, user_data, logic } => {
            match subtree {
                Some(w) => {
                    lemma_no_views_props(*w);
                },
                None => {
                    let p = produce_model(logic);
                    assert(cache_ok(Map::<WidgetKey, NodeModel>::empty()));
                    lemma_build_m_ok(Map::empty(), p.0);
                    let b = build_m(Map::empty(), p.0);
                    lemma_no_views_props(b.0);
                    lemma_mat_m_props(b.0);
                },
            }
        },
        NodeModel::Widget { children, .. } => {
            lemma_mat_seq_m_props(children);
        },
        NodeModel::Layout { children, .. } => {
            lemma_mat_seq_m_props(children);
        },
    }
}

/// Sequence form of [`lemma_mat_m_props`].
pub proof fn lemma_mat_seq_m_props(s: Seq<NodeModel>)
    requires
        crate::view::all_logics_ok(s),
        crate::view::all_subtrees_flat(s),
    ensures
        crate::view::all_materialized(mat_seq_m(s)),
        crate::view::all_logics_ok(mat_seq_m(s)),
        crate::view::all_subtrees_flat(mat_seq_m(s)),
        view_count_seq(mat_seq_m(s)) == view_count_seq(s),
    decreases view_count_seq(s), s, 0int,
{
    if s.len() > 0 {
        assert(view_count_seq(s) == view_count_seq(s.drop_last()) + view_count(s.last()));
        lemma_mat_seq_m_props(s.drop_last());
        lemma_mat_m_props(s.last());
        assert(mat_seq_m(s).drop_last() =~= mat_seq_m(s.drop_last()));
        assert(mat_seq_m(s).last() == mat_m(s.last()));
    }
}

/// Update preserves materialization and the tree's well-formedness.
pub proof fn lemma_upd_m_props(m: NodeModel, dirty: Set<u64>)
    requires
        tree_wf(m),
        materialized(m),
    ensures
        materialized(upd_m(m, dirty).0),
        tree_wf(upd_m(m, dirty).0),
        view_count(upd_m(m, dirty).0) == view_count(m),
    decreases view_count(m), m, 1int,
{
    match m {
        NodeModel::View { view_id, subtree, user_data, logic } => {
            if dirty.contains(view_id) {
                let cache = match subtree {
                    Some(w) => decon_m(*w, Map::empty()),
                    None => Map::<WidgetKey, NodeModel>::empty(),
                };
                assert(cache_ok(Map::<WidgetKey, NodeModel>::empty()));
                match subtree {
                    Some(w) => {
                        lemma_decon_m_ok(*w, Map::empty());
                    },
                    None => {},
                }
                let p = produce_model(logic);
                lemma_build_m_ok(cache, p.0);
                let b = build_m(cache, p.0);
                lemma_no_views_props(b.0);
                lemma_upd_m_props(b.0, dirty);
            } else {
                match subtree {
                    Some(w) => {
                        lemma_no_views_props(*w);
                        lemma_upd_m_props(*w, dirty);
                    },
                    None => {},
                }
            }
        },
        NodeModel::Widget { .. } => {},
        NodeModel::Layout { children, .. } => {
            lemma_upd_seq_m_props(children, dirty);
        },
    }
}

/// Sequence form of [`lemma_upd_m_props`].
pub proof fn lemma_upd_seq_m_props(s: Seq<NodeModel>, dirty: Set<u64>)
    requires
        crate::view::all_logics_ok(s),
        crate::view::all_subtrees_flat(s),
        crate::view::all_materialized(s),
    ensures
        crate::view::all_materialized(upd_seq_m(s, dirty).0),
        crate::view::all_logics_ok(upd_seq_m(s, dirty).0),
        crate::view::all_subtrees_flat(upd_seq_m(s, dirty).0),
        view_count_seq(upd_seq_m(s, dirty).0) == view_count_seq(s),
    decreases view_count_seq(s), s, 0int,
{
    if s.len() > 0 {
        assert(view_count_seq(s) == view_count_seq(s.drop_last()) + view_count(s.last()));
        lemma_upd_seq_m_props(s.drop_last(), dirty);
        lemma_upd_m_props(s.last(), dirty);
        assert(upd_seq_m(s, dirty).0.drop_last() =~= upd_seq_m(s.drop_last(), dirty).0);
        assert(upd_seq_m(s, dirty).0.last() == upd_m(s.last(), dirty).0);
    }
}

/// Deconstructing a sequence node by node, left to right.
pub proof fn lemma_decon_seq_snoc(p: Seq<NodeModel>, x: NodeModel, acc: Map<WidgetKey, NodeModel>)
    ensures
        decon_seq_m(p.push(x), acc) == decon_m(x, decon_seq_m(p, acc)),
    decreases p,
{
    let full = p.push(x);
    if p.len() == 0 {
        assert(full.first() == x);
        assert(full.drop_first() =~= Seq::<NodeModel>::empty());
        assert(decon_seq_m(full.drop_first(), decon_m(x, acc)) == decon_m(x, acc));
    } else {
        assert(full.first() == p.first());
        assert(full.drop_first() =~= p.drop_first().push(x));
        lemma_decon_seq_snoc(p.drop_first(), x, decon_m(p.first(), acc));
    }
}

impl WidgetTree {
    /// A placeholder node used only to swap a tree out of a mutable
    /// reference.
    fn placeholder() -> WidgetTree {
        WidgetTree::Layout(
            Box::new(
                crate::view::LayoutNode {
                    allocation: None,
                    children: Vec::new(),
                    layout: crate::widgets::box_layout::LayoutPolicy::VStack,
                },
            ),
        )
    }

    /// Deconstruct this node into the cache: every keyed widget
    /// descendant is stored under its identity with its children drained;
    /// view nodes, their subtrees, layout wrappers and keyless widgets are
    /// dropped.
    fn deconstruct(self, cache: &mut WidgetCache)
        requires
            old(cache).wf(),
        ensures
            final(cache).wf(),
            final(cache)@ == decon_m(self@, old(cache)@),
        decreases self,
    {
        let ghost self_g = self;
        let ghost c0 = cache@;
        match self {
            WidgetTree::View(_) => {},
            WidgetTree::Widget(b) => {
                let node = *b;
                let key = node.key;
                let allocation = node.allocation;
                let mut children = node.children;
                let widget = node.widget;
                let ghost orig = children@;
                let mut idx: usize = 0;
                proof {
                    vstd::std_specs::vec::axiom_spec_len(&children);
                    assert(orig.subrange(0, 0) =~= Seq::<WidgetTree>::empty());
                    assert(trees_view(Seq::<WidgetTree>::empty()) =~= Seq::<NodeModel>::empty());
                }
                while children.len() > 0
                    invariant
                        cache.wf(),
                        self_g == self,
                        orig.len() <= usize::MAX,
                        idx + children@.len() == orig.len(),
                        children@ == orig.subrange(idx as int, orig.len() as int),
                        self_g is Widget,
                        self_g->Widget_0.children@ == orig,
                        cache@ == decon_seq_m(trees_view(orig.subrange(0, idx as int)), c0),
                    decreases children@.len(),
                {
                    let c = children.remove(0);
                    proof {
                        assert(c == orig[idx as int]);
                        assert(children@ =~= orig.subrange(idx + 1, orig.len() as int));
                        assert(decreases_to!(self_g => self_g->Widget_0));
                        assert(decreases_to!(self_g->Widget_0 => self_g->Widget_0.children));
                        assert(decreases_to!(
                            self_g->Widget_0.children => self_g->Widget_0.children@));
                        assert(decreases_to!(
                            self_g->Widget_0.children@ => self_g->Widget_0.children@[idx as int]));
                        assert(decreases_to!(self_g => c));
                    }
                    c.deconstruct(cache);
                    idx = idx + 1;
                    proof {
                        let pfx = orig.subrange(0, idx - 1);
                        let pfx2 = orig.subrange(0, idx as int);
                        lemma_trees_view(pfx);
                        lemma_trees_view(pfx2);
                        assert(pfx.push(orig[idx - 1]) =~= pfx2);
                        assert(trees_view(pfx2) =~= trees_view(pfx).push(tree_view(orig[idx - 1])));
                        lemma_decon_seq_snoc(trees_view(pfx), tree_view(orig[idx - 1]), c0);
                    }
                }
                proof {
                    assert(orig.subrange(0, idx as int) =~= orig);
                }
                match key {
                    Some(k) => {
                        let cleared = WidgetTree::Widget(
                            Box::new(
                                crate::view::WidgetNode { key, allocation, children, widget },
                            ),
                        );
                        proof {
                            assert(children@ =~= Seq::<WidgetTree>::empty());
                            assert(trees_view(children@) =~= Seq::<NodeModel>::empty());
                            assert(view_count_seq(Seq::<NodeModel>::empty()) == 0);
                            assert(cache_val_ok(cleared@));
                        }
                        cache.insert_node(k, cleared);
                    },
                    None => {},
                }
            },
            WidgetTree::Layout(b) => {
                let node = *b;
                let mut children = node.children;
                let ghost orig = children@;
                let mut idx: usize = 0;
                proof {
                    vstd::std_specs::vec::axiom_spec_len(&children);
                    assert(orig.subrange(0, 0) =~= Seq::<WidgetTree>::empty());
                    assert(trees_view(Seq::<WidgetTree>::empty()) =~= Seq::<NodeModel>::empty());
                }
                while children.len() > 0
                    invariant
                        cache.wf(),
                        self_g == self,
                        orig.len() <= usize::MAX,
                        idx + children@.len() == orig.len(),
                        children@ == orig.subrange(idx as int, orig.len() as int),
                        self_g is Layout,
                        self_g->Layout_0.children@ == orig,
                        cache@ == decon_seq_m(trees_view(orig.subrange(0, idx as int)), c0),
                    decreases children@.len(),
                {
                    let c = children.remove(0);
                    proof {
                        assert(c == orig[idx as int]);
                        assert(children@ =~= orig.subrange(idx + 1, orig.len() as int));
                        assert(decreases_to!(self_g => self_g->Layout_0));
                        assert(decreases_to!(self_g->Layout_0 => self_g->Layout_0.children));
                        assert(decreases_to!(
                            self_g->Layout_0.children => self_g->Layout_0.children@));
                        assert(decreases_to!(
                            self_g->Layout_0.children@ => self_g->Layout_0.children@[idx as int]));
                        assert(decreases_to!(self_g => c));
                    }
                    c.deconstruct(cache);
                    idx = idx + 1;
                    proof {
                        let pfx = orig.subrange(0, idx - 1);
                        let pfx2 = orig.subrange(0, idx as int);
                        lemma_trees_view(pfx);
                        lemma_trees_view(pfx2);
                        assert(pfx.push(orig[idx - 1]) =~= pfx2);
                        assert(trees_view(pfx2) =~= trees_view(pfx).push(tree_view(orig[idx - 1])));
                        lemma_decon_seq_snoc(trees_view(pfx), tree_view(orig[idx - 1]), c0);
                    }
                }
                proof {
                    assert(orig.subrange(0, idx as int) =~= orig);
                }
            },
        }
    }
}

impl WidgetTree {
    /// Recursively materialize every view in this tree (by value).
    fn materialize_rec(self) -> (r: WidgetTree)
        requires
            tree_wf(self@),
        ensures
            r@ == mat_m(self@),
        decreases view_count(self@), self, 1int,
    {
        let ghost self_g = self;
        match self {
            WidgetTree::View(b) => {
                let node = *b;
                let view_id = node.view_id;
                let widget = node.widget;
                let user_data = node.user_data;
                let mut view = node.view;
                match widget {
                    Some(w) => {
                        let r = WidgetTree::View(
                            Box::new(ViewNode { view_id, widget: Some(w), user_data, view }),
                        );
                        proof {
                            assert(r@ == self_g@);
                        }
                        r
                    },
                    None => {
                        let d = view.produce();
                        let factory = WidgetTreeFactory::new();
                        let mut cache = WidgetCache::empty(factory);
                        let nt = cache.build(d);
                        proof {
                            assert(cache_ok(Map::<WidgetKey, NodeModel>::empty()));
                            lemma_build_m_ok(Map::empty(), produce_model(self_g@->logic).0);
                            lemma_no_views_props(nt@);
                        }
                        let nt2 = nt.materialize_rec();
                        let r = WidgetTree::View(
                            Box::new(ViewNode { view_id, widget: Some(nt2), user_data, view }),
                        );
                        r
                    },
                }
            },
            WidgetTree::Widget(b) => {
                let node = *b;
                let key = node.key;
                let allocation = node.allocation;
                let mut children = node.children;
                let widget = node.widget;
                let ghost orig = children@;
                let mut out: Vec<WidgetTree> = Vec::new();
                let mut idx: usize = 0;
                proof {
                    vstd::std_specs::vec::axiom_spec_len(&children);
                    assert(orig.subrange(0, 0) =~= Seq::<WidgetTree>::empty());
                    assert(trees_view(Seq::<WidgetTree>::empty()) =~= Seq::<NodeModel>::empty());
                    assert(mat_seq_m(Seq::<NodeModel>::empty()) =~= Seq::<NodeModel>::empty());
                    assert(trees_view(out@) =~= Seq::<NodeModel>::empty());
                }
                while children.len() > 0
                    invariant
                        self_g == self,
                        tree_wf(self_g@),
                        orig.len() <= usize::MAX,
                        idx + children@.len() == orig.len(),
                        children@ == orig.subrange(idx as int, orig.len() as int),
                        out@.len() == idx,
                        self_g is Widget,
                        self_g->Widget_0.children@ == orig,
                        trees_view(out@) == mat_seq_m(trees_view(orig.subrange(0, idx as int))),
                    decreases children@.len(),
                {
                    let c = children.remove(0);
                    proof {
                        assert(c == orig[idx as int]);
                        assert(children@ =~= orig.subrange(idx + 1, orig.len() as int));
                        assert(decreases_to!(self_g => self_g->Widget_0));
                        assert(decreases_to!(self_g->Widget_0 => self_g->Widget_0.children));
                        assert(decreases_to!(
                            self_g->Widget_0.children => self_g->Widget_0.children@));
                        assert(decreases_to!(
                            self_g->Widget_0.children@ => self_g->Widget_0.children@[idx as int]));
                        assert(decreases_to!(self_g => c));
                        lemma_trees_view(orig);
                        lemma_view_count_seq_element(trees_view(orig), idx as int);
                        assert(view_count(c@) <= view_count_seq(trees_view(orig)));
                        assert(view_count(self_g@) == view_count_seq(trees_view(orig)));
                        lemma_all_wf_element(trees_view(orig), idx as int, self_g@);
                        assert(tree_wf(c@));
                    }
                    let ghost pre_out = out@;
                    let m = c.materialize_rec();
                    out.push(m);
                    idx = idx + 1;
                    proof {
                        let pfx = orig.subrange(0, idx - 1);
                        let pfx2 = orig.subrange(0, idx as int);
                        lemma_trees_view(pfx);
                        lemma_trees_view(pfx2);
                        assert(pfx.push(orig[idx - 1]) =~= pfx2);
                        assert(trees_view(pfx2) =~= trees_view(pfx).push(tree_view(orig[idx - 1])));
                        assert(out@.drop_last() =~= pre_out);
                        assert(trees_view(out@) =~= trees_view(pre_out).push(tree_view(out@.last())));
                        let tv = trees_view(pfx);
                        let yy = tree_view(orig[idx - 1]);
                        assert(tv.push(yy).drop_last() =~= tv);
                        assert(tv.push(yy).last() == yy);
                        assert(mat_seq_m(trees_view(pfx2)) =~= mat_seq_m(tv).push(mat_m(yy)));
                    }
                }
                proof {
                    assert(orig.subrange(0, idx as int) =~= orig);
                }
                let r = WidgetTree::Widget(
                    Box::new(
                        crate::view::WidgetNode { key, allocation, children: out, widget },
                    ),
                );
                r
            },
            WidgetTree::Layout(b) => {
                let node = *b;
                let allocation = node.allocation;
                let mut children = node.children;
                let layout = node.layout;
                let ghost orig = children@;
                let mut out: Vec<WidgetTree> = Vec::new();
                let mut idx: usize = 0;
                proof {
                    vstd::std_specs::vec::axiom_spec_len(&children);
                    assert(orig.subrange(0, 0) =~= Seq::<WidgetTree>::empty());
                    assert(trees_view(Seq::<WidgetTree>::empty()) =~= Seq::<NodeModel>::empty());
                    assert(mat_seq_m(Seq::<NodeModel>::empty()) =~= Seq::<NodeModel>::empty());
                    assert(trees_view(out@) =~= Seq::<NodeModel>::empty());
                }
                while children.len() > 0
                    invariant
                        self_g == self,
                        tree_wf(self_g@),
                        orig.len() <= usize::MAX,
                        idx + children@.len() == orig.len(),
                        children@ == orig.subrange(idx as int, orig.len() as int),
                        out@.len() == idx,
                        self_g is Layout,
                        self_g->Layout_0.children@ == orig,
                        trees_view(out@) == mat_seq_m(trees_view(orig.subrange(0, idx as int))),
                    decreases children@.len(),
                {
                    let c = children.remove(0);
                    proof {
                        assert(c == orig[idx as int]);
                        assert(children@ =~= orig.subrange(idx + 1, orig.len() as int));
                        assert(decreases_to!(self_g => self_g->Layout_0));
                        assert(decreases_to!(self_g->Layout_0 => self_g->Layout_0.children));
                        assert(decreases_to!(
                            self_g->Layout_0.children => self_g->Layout_0.children@));
                        assert(decreases_to!(
                            self_g->Layout_0.children@ => self_g->Layout_0.children@[idx as int]));
                        assert(decreases_to!(self_g => c));
                        lemma_trees_view(orig);
                        lemma_view_count_seq_element(trees_view(orig), idx as int);
                        assert(view_count(c@) <= view_count_seq(trees_view(orig)));
                        assert(view_count(self_g@) == view_count_seq(trees_view(orig)));
                        lemma_all_wf_element(trees_view(orig), idx as int, self_g@);
                        assert(tree_wf(c@));
                    }
                    let ghost pre_out = out@;
                    let m = c.materialize_rec();
                    out.push(m);
                    idx = idx + 1;
                    proof {
                        let pfx = orig.subrange(0, idx - 1);
                        let pfx2 = orig.subrange(0, idx as int);
                        lemma_trees_view(pfx);
                        lemma_trees_view(pfx2);
                        assert(pfx.push(orig[idx - 1]) =~= pfx2);
                        assert(trees_view(pfx2) =~= trees_view(pfx).push(tree_view(orig[idx - 1])));
                        assert(out@.drop_last() =~= pre_out);
                        assert(trees_view(out@) =~= trees_view(pre_out).push(tree_view(out@.last())));
                        let tv = trees_view(pfx);
                        let yy = tree_view(orig[idx - 1]);
                        assert(tv.push(yy).drop_last() =~= tv);
                        assert(tv.push(yy).last() == yy);
                        assert(mat_seq_m(trees_view(pfx2)) =~= mat_seq_m(tv).push(mat_m(yy)));
                    }
                }
                proof {
                    assert(orig.subrange(0, idx as int) =~= orig);
                }
                let r = WidgetTree::Layout(
                    Box::new(
                        crate::view::LayoutNode { allocation, children: out, layout },
                    ),
                );
                r
            },
        }
    }

    /// Materialize every view in this tree: a no-op for views already
    /// materialized, otherwise the view logic is invoked with a fresh
    /// cache and the built subtree is stored (and recursively
    /// materialized).
    pub fn materialize(&mut self)
        requires
            tree_wf(old(self)@),
        ensures
            final(self)@ == mat_m(old(self)@),
            materialized(final(self)@),
            tree_wf(final(self)@),
    {
        let mut tmp = WidgetTree::placeholder();
        core::mem::swap(self, &mut tmp);
        let mut done = tmp.materialize_rec();
        proof {
            lemma_mat_m_props(old(self)@);
        }
        core::mem::swap(self, &mut done);
    }
}

/// Well-formedness of a parent restricts each child.
pub(crate) proof fn lemma_all_wf_element(s: Seq<NodeModel>, i: int, parent: NodeModel)
    requires
        0 <= i < s.len(),
        crate::view::node_children(parent) == s,
        parent is Widget || parent is Layout,
        tree_wf(parent),
    ensures
        tree_wf(s[i]),
{
    crate::view::lemma_all_element(s, i);
}

impl WidgetTree {
    /// Recursively update this tree against the drained dirty set (by
    /// value), returning whether anything changed.
    fn update_rec(self, views: &DirtySet) -> (r: (WidgetTree, bool))
        requires
            tree_wf(self@),
        ensures
            r.0@ == upd_m(self@, views@).0,
            r.1 == upd_m(self@, views@).1,
        decreases view_count(self@), self, 1int,
    {
        let ghost self_g = self;
        match self {
            WidgetTree::View(b) => {
                let node = *b;
                let view_id = node.view_id;
                let widget = node.widget;
                let user_data = node.user_data;
                let mut view = node.view;
                if views.contains(view_id) {
                    let factory = WidgetTreeFactory::new();
                    let mut cache = WidgetCache::empty(factory);
                    match widget {
                        Some(w) => {
                            w.deconstruct(&mut cache);
                        },
                        None => {},
                    }
                    let ghost cache_m = cache@;
                    let d = view.produce();
                    let nt = cache.build(d);
                    proof {
                        assert(cache_ok(Map::<WidgetKey, NodeModel>::empty()));
                        match self_g@->subtree {
                            Some(wm) => {
                                lemma_decon_m_ok(*wm, Map::empty());
                            },
                            None => {},
                        }
                        lemma_build_m_ok(cache_m, produce_model(self_g@->logic).0);
                        lemma_no_views_props(nt@);
                    }
                    let r = nt.update_rec(views);
                    let t = WidgetTree::View(
                        Box::new(ViewNode { view_id, widget: Some(r.0), user_data, view }),
                    );
                    (t, true)
                } else {
                    match widget {
                        Some(w) => {
                            proof {
                                match self_g@->subtree {
                                    Some(wm) => {
                                        crate::view::lemma_no_views_props(*wm);
                                    },
                                    None => {},
                                }
                            }
                            let r = w.update_rec(views);
                            let t = WidgetTree::View(
                                Box::new(
                                    ViewNode { view_id, widget: Some(r.0), user_data, view },
                                ),
                            );
                            (t, r.1)
                        },
                        None => {
                            let t = WidgetTree::View(
                                Box::new(ViewNode { view_id, widget: None, user_data, view }),
                            );
                            proof {
                                assert(t@ == self_g@);
                            }
                            (t, false)
                        },
                    }
                }
            },
            WidgetTree::Widget(b) => {
                let t = WidgetTree::Widget(b);
                proof {
                    assert(t@ == self_g@);
                }
                (t, false)
            },
            WidgetTree::Layout(b) => {
                let node = *b;
                let allocation = node.allocation;
                let mut children = node.children;
                let layout = node.layout;
                let ghost orig = children@;
                let mut out: Vec<WidgetTree> = Vec::new();
                let mut changed = false;
                let mut idx: usize = 0;
                proof {
                    vstd::std_specs::vec::axiom_spec_len(&children);
                    assert(orig.subrange(0, 0) =~= Seq::<WidgetTree>::empty());
                    assert(trees_view(Seq::<WidgetTree>::empty()) =~= Seq::<NodeModel>::empty());
                    assert(upd_seq_m(Seq::<NodeModel>::empty(), views@).0 =~= Seq::<
                        NodeModel,
                    >::empty());
                    assert(trees_view(out@) =~= Seq::<NodeModel>::empty());
                }
                while children.len() > 0
                    invariant
                        self_g == self,
                        tree_wf(self_g@),
                        orig.len() <= usize::MAX,
                        idx + children@.len() == orig.len(),
                        children@ == orig.subrange(idx as int, orig.len() as int),
                        out@.len() == idx,
                        self_g is Layout,
                        self_g->Layout_0.children@ == orig,
                        trees_view(out@) == upd_seq_m(
                            trees_view(orig.subrange(0, idx as int)),
                            views@,
                        ).0,
                        changed == upd_seq_m(trees_view(orig.subrange(0, idx as int)), views@).1,
                    decreases children@.len(),
                {
                    let c = children.remove(0);
                    proof {
                        assert(c == orig[idx as int]);
                        assert(children@ =~= orig.subrange(idx + 1, orig.len() as int));
                        assert(decreases_to!(self_g => self_g->Layout_0));
                        assert(decreases_to!(self_g->Layout_0 => self_g->Layout_0.children));
                        assert(decreases_to!(
                            self_g->Layout_0.children => self_g->Layout_0.children@));
                        assert(decreases_to!(
                            self_g->Layout_0.children@ => self_g->Layout_0.children@[idx as int]));
                        assert(decreases_to!(self_g => c));
                        lemma_trees_view(orig);
                        lemma_view_count_seq_element(trees_view(orig), idx as int);
                        assert(view_count(c@) <= view_count_seq(trees_view(orig)));
                        assert(view_count(self_g@) == view_count_seq(trees_view(orig)));
                        lemma_all_wf_element(trees_view(orig), idx as int, self_g@);
                        assert(tree_wf(c@));
                    }
                    let ghost pre_out = out@;
                    let r = c.update_rec(views);
                    if r.1 {
                        changed = true;
                    }
                    out.push(r.0);
                    idx = idx + 1;
                    proof {
                        let pfx = orig.subrange(0, idx - 1);
                        let pfx2 = orig.subrange(0, idx as int);
                        lemma_trees_view(pfx);
                        lemma_trees_view(pfx2);
                        assert(pfx.push(orig[idx - 1]) =~= pfx2);
                        assert(trees_view(pfx2) =~= trees_view(pfx).push(tree_view(orig[idx - 1])));
                        assert(out@.drop_last() =~= pre_out);
                        assert(trees_view(out@) =~= trees_view(pre_out).push(tree_view(out@.last())));
                        let tv = trees_view(pfx);
                        let yy = tree_view(orig[idx - 1]);
                        assert(tv.push(yy).drop_last() =~= tv);
                        assert(tv.push(yy).last() == yy);
                        assert(upd_seq_m(trees_view(pfx2), views@).0 =~= upd_seq_m(tv, views@).0.push(
                            upd_m(yy, views@).0));
                    }
                }
                proof {
                    assert(orig.subrange(0, idx as int) =~= orig);
                }
                let t = WidgetTree::Layout(
                    Box::new(
                        crate::view::LayoutNode { allocation, children: out, layout },
                    ),
                );
                (t, changed)
            },
        }
    }

    /// Update the tree against the drained dirty set: exactly the views
    /// whose identities are in the set rebuild their subtree, reusing
    /// identified widget nodes; everything else is untouched. Returns
    /// whether anything in the tree changed.
    pub fn update(&mut self, views: &DirtySet) -> (changed: bool)
        requires
            tree_wf(old(self)@),
            materialized(old(self)@),
        ensures
            final(self)@ == upd_m(old(self)@, views@).0,
            changed == upd_m(old(self)@, views@).1,
            materialized(final(self)@),
            tree_wf(final(self)@),
    {
        let mut tmp = WidgetTree::placeholder();
        core::mem::swap(self, &mut tmp);
        let r = tmp.update_rec(views);
        let mut done = r.0;
        proof {
            lemma_upd_m_props(old(self)@, views@);
        }
        core::mem::swap(self, &mut done);
        r.1
    }
}

/// The identities of all view nodes in the tree.
pub open spec fn view_ids(m: NodeModel) -> Set<u64>
    decreases m, 1int,
{
    match m {
        NodeModel::View { view_id, subtree, .. } => (match subtree {
            Some(w) => view_ids(*w),
            None => Set::empty(),
        }).insert(view_id),
        NodeModel::Widget { children, .. } => view_ids_seq(children),
        NodeModel::Layout { children, .. } => view_ids_seq(children),
    }
}

/// The identities of all view nodes across a sequence of trees.
pub open spec fn view_ids_seq(s: Seq<NodeModel>) -> Set<u64>
    decreases s, 0int,
{
    if s.len() == 0 {
        Set::empty()
    } else {
        view_ids_seq(s.drop_last()).union(view_ids(s.last()))
    }
}

/// Law (dirty scoping, whole tree): updating a tree none of whose view
/// identities is in the dirty set changes nothing and reports no change.
pub proof fn lemma_dirty_scoping(m: NodeModel, dirty: Set<u64>)
    requires
        forall|id: u64| view_ids(m).contains(id) ==> !dirty.contains(id),
    ensures
        upd_m(m, dirty) == (m, false),
    decreases m, 1int,
{
    match m {
        NodeModel::View { view_id, subtree, user_data, logic } => {
            assert(view_ids(m).contains(view_id));
            match subtree {
                Some(w) => {
                    assert forall|id: u64| view_ids(*w).contains(id) implies !dirty.contains(
                        id,
                    ) by {
                        assert(view_ids(m).contains(id));
                    }
                    lemma_dirty_scoping(*w, dirty);
                    assert(upd_m(m, dirty).0 =~= m);
                },
                None => {},
            }
        },
        NodeModel::Widget { .. } => {},
        NodeModel::Layout { allocation, children, layout } => {
            lemma_dirty_scoping_seq(children, dirty);
            assert(upd_m(m, dirty).0 =~= m);
        },
    }
}

/// Sequence form of [`lemma_dirty_scoping`].
pub proof fn lemma_dirty_scoping_seq(s: Seq<NodeModel>, dirty: Set<u64>)
    requires
        forall|id: u64| view_ids_seq(s).contains(id) ==> !dirty.contains(id),
    ensures
        upd_seq_m(s, dirty) == (s, false),
    decreases s, 0int,
{
    if s.len() > 0 {
        assert forall|id: u64| view_ids_seq(s.drop_last()).contains(id) implies !dirty.contains(
            id,
        ) by {
            assert(view_ids_seq(s).contains(id));
        }
        assert forall|id: u64| view_ids(s.last()).contains(id) implies !dirty.contains(id) by {
            assert(view_ids_seq(s).contains(id));
        }
        lemma_dirty_scoping_seq(s.drop_last(), dirty);
        lemma_dirty_scoping(s.last(), dirty);
        assert(upd_seq_m(s, dirty).0 =~= s);
    } else {
        assert(upd_seq_m(s, dirty).0 =~= s);
    }
}

/// Law (dirty scoping, marked view): a view whose identity is in the
/// dirty set does rebuild: the update reports a change, the view logic is
/// stepped once, and a subtree is stored.
pub proof fn lemma_marked_view_rebuilds(m: NodeModel, dirty: Set<u64>)
    requires
        m is View,
        dirty.contains(m->view_id),
    ensures
        upd_m(m, dirty).1 == true,
        upd_m(m, dirty).0->logic == produce_model(m->logic).1,
        upd_m(m, dirty).0->subtree is Some,
{
}

/// Children are updated elementwise, and a change is reported exactly
/// when some child changed.
pub proof fn lemma_upd_seq_elementwise(s: Seq<NodeModel>, dirty: Set<u64>)
    ensures
        upd_seq_m(s, dirty).0.len() == s.len(),
        forall|i: int| 0 <= i < s.len() ==> upd_seq_m(s, dirty).0[i] == upd_m(#[trigger] s[i], dirty).0,
        upd_seq_m(s, dirty).1 <==> exists|i: int| 0 <= i < s.len() && upd_m(#[trigger] s[i], dirty).1,
    decreases s,
{
    if s.len() > 0 {
        lemma_upd_seq_elementwise(s.drop_last(), dirty);
        assert forall|i: int| 0 <= i < s.len() implies upd_seq_m(s, dirty).0[i] == upd_m(
            s[i],
            dirty,
        ).0 by {
            if i < s.len() - 1 {
                assert(s.drop_last()[i] == s[i]);
                assert(upd_seq_m(s, dirty).0[i] == upd_seq_m(s.drop_last(), dirty).0[i]);
            }
        }
        if upd_seq_m(s, dirty).1 {
            if upd_m(s.last(), dirty).1 {
                assert(upd_m(s[s.len() - 1], dirty).1);
            } else {
                let i = choose|i: int|
                    0 <= i < s.drop_last().len() && upd_m(#[trigger] s.drop_last()[i], dirty).1;
                assert(s.drop_last()[i] == s[i]);
                assert(upd_m(s[i], dirty).1);
            }
        }
        if exists|i: int| 0 <= i < s.len() && upd_m(#[trigger] s[i], dirty).1 {
            let i = choose|i: int| 0 <= i < s.len() && upd_m(#[trigger] s[i], dirty).1;
            if i < s.len() - 1 {
                assert(s.drop_last()[i] == s[i]);
                assert(upd_seq_m(s.drop_last(), dirty).1);
            }
        }
    }
}

/// Law (dirty scoping, siblings): under a layout node, a child that
/// contains no dirty view identity keeps its stored subtree unchanged and
/// reports no change, whatever happens to its siblings.
pub proof fn lemma_dirty_scoping_siblings(m: NodeModel, dirty: Set<u64>, i: int)
    requires
        m is Layout,
        0 <= i < crate::view::node_children(m).len(),
        forall|id: u64|
            view_ids(crate::view::node_children(m)[i]).contains(id) ==> !dirty.contains(id),
    ensures
        crate::view::node_children(upd_m(m, dirty).0).len() == crate::view::node_children(m).len(),
        crate::view::node_children(upd_m(m, dirty).0)[i] == crate::view::node_children(m)[i],
        upd_m(crate::view::node_children(m)[i], dirty).1 == false,
{
    let children = crate::view::node_children(m);
    lemma_upd_seq_elementwise(children, dirty);
    lemma_dirty_scoping(children[i], dirty);
}

} // verus!
