//! Reconciliation: building a description through the keyed widget cache.
//!
//! `WidgetCache::build` consumes one description. If the description
//! carries an identity that the cache holds, the retained node is claimed
//! and updated in place — no new node, prior undescribed state persists.
//! On a kind mismatch, or when there is no match, a fresh node is created,
//! recursively building child descriptions through the same cache; a
//! claimed-but-mismatched node is dropped.

use vstd::prelude::*;

use crate::cache::{cache_val_ok, WidgetCache};
use crate::description::{
    apply_model, create_behavior_model, desc_key, desc_view, descs_view, lemma_descs_view,
    DescModel, Description, WidgetKey,
};
use crate::geom::Rect;
use crate::view::{
    node_allocation, node_children, node_key, node_widget, tree_view, trees_view, view_count,
    view_count_seq, LayoutNode, NodeModel, WidgetNode, WidgetTree,
};
use crate::widgets::box_layout::LayoutPolicy;

verus! {

broadcast use vstd::std_specs::vec::group_vec_axioms;

/// Every value in a reconciliation cache is a childless widget node.
pub open spec fn cache_ok(c: Map<WidgetKey, NodeModel>) -> bool {
    forall|k: WidgetKey| c.dom().contains(k) ==> cache_val_ok(#[trigger] c[k])
}

/// What building one description through a cache yields: the built node
/// and the cache left after entries were claimed.
pub open spec fn build_m(c: Map<WidgetKey, NodeModel>, d: DescModel) -> (
    NodeModel,
    Map<WidgetKey, NodeModel>,
)
    decreases d, 1int,
{
    match desc_key(d) {
        Some(k) => if c.dom().contains(k) {
            let n = c[k];
            let c1 = c.remove(k);
            match n {
                NodeModel::Widget { key, allocation, children, widget } => match apply_model(
                    d,
                    widget,
                ) {
                    Some(w2) => (
                        NodeModel::Widget { key, allocation, children, widget: w2 },
                        c1,
                    ),
                    None => create_m(c1, d),
                },
                _ => create_m(c1, d),
            }
        } else {
            create_m(c, d)
        },
        None => create_m(c, d),
    }
}

/// What creating a fresh node from one description yields.
pub open spec fn create_m(c: Map<WidgetKey, NodeModel>, d: DescModel) -> (
    NodeModel,
    Map<WidgetKey, NodeModel>,
)
    decreases d, 0int,
{
    match d {
        DescModel::Stack(children) => {
            let r = build_seq_m(c, children);
            (
                NodeModel::Layout {
                    allocation: None,
                    children: r.0,
                    layout: LayoutPolicy::VStack,
                },
                r.1,
            )
        },
        _ => (
            NodeModel::Widget {
                key: desc_key(d),
                allocation: None,
                children: Seq::empty(),
                widget: create_behavior_model(d),
            },
            c,
        ),
    }
}

/// What building a sequence of descriptions yields, threading the cache
/// left to right.
pub open spec fn build_seq_m(c: Map<WidgetKey, NodeModel>, ds: Seq<DescModel>) -> (
    Seq<NodeModel>,
    Map<WidgetKey, NodeModel>,
)
    decreases ds, 2int,
{
    if ds.len() == 0 {
        (Seq::empty(), c)
    } else {
        let r0 = build_m(c, ds.first());
        let r1 = build_seq_m(r0.1, ds.drop_first());
        (Seq::empty().push(r0.0) + r1.0, r1.1)
    }
}

/// Building `ds.push(d)` builds `ds`, then `d` through the cache that was
/// left.
pub proof fn lemma_build_seq_snoc(c: Map<WidgetKey, NodeModel>, ds: Seq<DescModel>, d: DescModel)
    ensures
        build_seq_m(c, ds.push(d)) == {
            let r0 = build_seq_m(c, ds);
            let r1 = build_m(r0.1, d);
            (r0.0.push(r1.0), r1.1)
        },
    decreases ds,
{
    let full = ds.push(d);
    if ds.len() == 0 {
        assert(full.first() == d);
        assert(full.drop_first() =~= Seq::<DescModel>::empty());
        let r1 = build_m(c, d);
        assert(build_seq_m(r1.1, full.drop_first()) == (Seq::<NodeModel>::empty(), r1.1));
        assert(build_seq_m(c, full) == (Seq::empty().push(r1.0) + Seq::<NodeModel>::empty(), r1.1));
        assert(Seq::empty().push(r1.0) + Seq::<NodeModel>::empty() =~= Seq::empty().push(r1.0));
        assert(build_seq_m(c, ds).0.push(r1.0) =~= Seq::empty().push(r1.0));
    } else {
        assert(full.first() == ds.first());
        assert(full.drop_first() =~= ds.drop_first().push(d));
        let r0 = build_m(c, ds.first());
        lemma_build_seq_snoc(r0.1, ds.drop_first(), d);
        let ra = build_seq_m(r0.1, ds.drop_first());
        let rb = build_m(ra.1, d);
        assert(Seq::empty().push(r0.0) + ra.0.push(rb.0) =~= (Seq::empty().push(r0.0)
            + ra.0).push(rb.0));
    }
}

/// A built node holds no view nodes, and the cache that is left is the
/// part of the input cache that was not claimed, unchanged.
pub proof fn lemma_build_m_ok(c: Map<WidgetKey, NodeModel>, d: DescModel)
    requires
        cache_ok(c),
    ensures
        view_count(build_m(c, d).0) == 0,
        forall|k: WidgetKey| #[trigger]
            build_m(c, d).1.dom().contains(k) ==> c.dom().contains(k) && build_m(c, d).1[k]
                == c[k],
    decreases d, 1int,
{
    let (t, c2) = build_m(c, d);
    match desc_key(d) {
        Some(k) => {
            if c.dom().contains(k) {
                let n = c[k];
                let c1 = c.remove(k);
                assert(cache_ok(c1));
                match n {
                    NodeModel::Widget { key, allocation, children, widget } => {
                        match apply_model(d, widget) {
                            Some(w2) => {
                                assert(cache_val_ok(n));
                                assert(view_count(n) == view_count_seq(children));
                                assert(view_count(t) == view_count_seq(children));
                            },
                            None => {
                                lemma_create_m_ok(c1, d);
                            },
                        }
                    },
                    _ => {
                        lemma_create_m_ok(c1, d);
                    },
                }
            } else {
                lemma_create_m_ok(c, d);
            }
        },
        None => {
            lemma_create_m_ok(c, d);
        },
    }
}

/// A freshly created node holds no view nodes; the cache only shrinks.
pub proof fn lemma_create_m_ok(c: Map<WidgetKey, NodeModel>, d: DescModel)
    requires
        cache_ok(c),
    ensures
        view_count(create_m(c, d).0) == 0,
        forall|k: WidgetKey| #[trigger]
            create_m(c, d).1.dom().contains(k) ==> c.dom().contains(k) && create_m(c, d).1[k]
                == c[k],
    decreases d, 0int,
{
    match d {
        DescModel::Stack(children) => {
            lemma_build_seq_m_ok(c, children);
        },
        _ => {
            assert(view_count(create_m(c, d).0) == view_count_seq(Seq::<NodeModel>::empty()));
        },
    }
}

/// Built sequences hold no view nodes; the cache only shrinks.
pub proof fn lemma_build_seq_m_ok(c: Map<WidgetKey, NodeModel>, ds: Seq<DescModel>)
    requires
        cache_ok(c),
    ensures
        view_count_seq(build_seq_m(c, ds).0) == 0,
        forall|k: WidgetKey| #[trigger]
            build_seq_m(c, ds).1.dom().contains(k) ==> c.dom().contains(k) && build_seq_m(
                c,
                ds,
            ).1[k] == c[k],
    decreases ds, 2int,
{
    if ds.len() == 0 {
    } else {
        let r0 = build_m(c, ds.first());
        lemma_build_m_ok(c, ds.first());
        assert(cache_ok(r0.1));
        lemma_build_seq_m_ok(r0.1, ds.drop_first());
        let r1 = build_seq_m(r0.1, ds.drop_first());
        lemma_view_count_seq_add(Seq::empty().push(r0.0), r1.0);
        let s1 = Seq::<NodeModel>::empty().push(r0.0);
        assert(s1.drop_last() =~= Seq::<NodeModel>::empty());
        assert(view_count_seq(Seq::<NodeModel>::empty()) == 0);
        assert(view_count_seq(s1) == view_count(r0.0));
    }
}

/// View counts add across concatenation.
pub proof fn lemma_view_count_seq_add(a: Seq<NodeModel>, b: Seq<NodeModel>)
    ensures
        view_count_seq(a + b) == view_count_seq(a) + view_count_seq(b),
    decreases b,
{
    if b.len() == 0 {
        assert(a + b =~= a);
    } else {
        lemma_view_count_seq_add(a, b.drop_last());
        assert((a + b).drop_last() =~= a + b.drop_last());
        assert((a + b).last() == b.last());
    }
}

impl WidgetCache {
    /// Build one description through this cache: reuse the retained node
    /// under the description's identity when the concrete kind matches,
    /// otherwise create a fresh node (recursively building children
    /// through the same cache) and drop the stale node, if any.
    pub fn build(&mut self, desc: Description) -> (t: WidgetTree)
        requires
            old(self).wf(),
        ensures
            final(self).wf(),
            t@ == build_m(old(self)@, desc@).0,
            final(self)@ == build_m(old(self)@, desc@).1,
        decreases desc, 1int,
    {
        let ghost c0 = self@;
        let ghost dm = desc@;
        let key = desc.key();
        match key {
            Some(k) => {
                match self.remove(k) {
                    Some(node) => {
                        proof {
                            old(self).lemma_wf_values();
                            assert(cache_val_ok(node@));
                        }
                        match node {
                            WidgetTree::Widget(mut b) => {
                                match desc.apply(&mut b.widget) {
                                    Ok(()) => {
                                        let t = WidgetTree::Widget(b);
                                        t
                                    },
                                    Err(desc2) => {
                                        proof {
                                            assert(desc2 == desc);
                                        }
                                        self.create_node(desc2)
                                    },
                                }
                            },
                            _ => vstd::pervasive::unreached(),
                        }
                    },
                    None => self.create_node(desc),
                }
            },
            None => self.create_node(desc),
        }
    }

    /// Create a fresh retained node from one description, building child
    /// descriptions through this cache.
    fn create_node(&mut self, desc: Description) -> (t: WidgetTree)
        requires
            old(self).wf(),
        ensures
            final(self).wf(),
            t@ == create_m(old(self)@, desc@).0,
            final(self)@ == create_m(old(self)@, desc@).1,
        decreases desc, 0int,
    {
        let ghost desc_g = desc;
        let ghost c0 = self@;
        match desc {
            Description::Stack(s) => {
                proof {
                    assert(desc_g == Description::Stack(s));
                }
                let mut children = s.children;
                let ghost orig = children@;
                let mut out: Vec<WidgetTree> = Vec::new();
                let mut idx: usize = 0;
                proof {
                    vstd::std_specs::vec::axiom_spec_len(&children);
                    assert(orig.subrange(0, 0) =~= Seq::<Description>::empty());
                    assert(descs_view(Seq::<Description>::empty()) =~= Seq::<DescModel>::empty());
                    assert(trees_view(out@) =~= Seq::<NodeModel>::empty());
                }
                while children.len() > 0
                    invariant
                        self.wf(),
                        orig.len() <= usize::MAX,
                        idx + children@.len() == orig.len(),
                        children@ == orig.subrange(idx as int, orig.len() as int),
                        out@.len() == idx,
                        desc_g == desc,
                        desc_g is Stack,
                        desc_g->Stack_0.children@ == orig,
                        trees_view(out@) == build_seq_m(
                            c0,
                            descs_view(orig.subrange(0, idx as int)),
                        ).0,
                        self@ == build_seq_m(c0, descs_view(orig.subrange(0, idx as int))).1,
                    decreases children@.len(),
                {
                    let d = children.remove(0);
                    proof {
                        assert(d == orig[idx as int]);
                        assert(children@ =~= orig.subrange(idx + 1, orig.len() as int));
                        assert(decreases_to!(desc_g => desc_g->Stack_0));
                        assert(decreases_to!(desc_g->Stack_0 => desc_g->Stack_0.children));
                        assert(decreases_to!(desc_g->Stack_0.children => desc_g->Stack_0.children@));
                        assert(decreases_to!(desc_g->Stack_0.children@ => desc_g->Stack_0.children@[idx as int]));
                        assert(desc_g->Stack_0.children@[idx as int] == d);
                        assert(decreases_to!(desc_g => d));
                    }
                    let ghost pre_cache = self@;
                    let ghost pre_out = out@;
                    let t = self.build(d);
                    out.push(t);
                    idx = idx + 1;
                    proof {
                        let pfx = orig.subrange(0, idx - 1);
                        let pfx2 = orig.subrange(0, idx as int);
                        lemma_descs_view(pfx);
                        lemma_descs_view(pfx2);
                        assert(pfx.push(orig[idx - 1]) =~= pfx2);
                        assert(descs_view(pfx2) =~= descs_view(pfx).push(desc_view(orig[idx - 1])));
                        lemma_build_seq_snoc(c0, descs_view(pfx), desc_view(orig[idx - 1]));
                        assert(out@.drop_last() =~= pre_out);
                        assert(trees_view(out@) =~= trees_view(pre_out).push(tree_view(out@.last())));
                    }
                }
                proof {
                    assert(orig.subrange(0, idx as int) =~= orig);
                }
                let t = WidgetTree::Layout(
                    Box::new(
                        LayoutNode { allocation: None, children: out, layout: LayoutPolicy::VStack },
                    ),
                );
                t
            },
            Description::Button(bd) => {
                let d = Description::Button(bd);
                let key = d.key();
                let ghost dv = d@;
                let node = WidgetNode {
                    key,
                    allocation: None,
                    children: Vec::new(),
                    widget: d.into_behavior(),
                };
                let t = WidgetTree::Widget(Box::new(node));
                proof {
                    assert(trees_view(Seq::<WidgetTree>::empty()) =~= Seq::<NodeModel>::empty());
                    assert(t@ =~= create_m(c0, dv).0);
                }
                t
            },
            Description::Label(ld) => {
                let d = Description::Label(ld);
                let key = d.key();
                let ghost dv = d@;
                let node = WidgetNode {
                    key,
                    allocation: None,
                    children: Vec::new(),
                    widget: d.into_behavior(),
                };
                let t = WidgetTree::Widget(Box::new(node));
                proof {
                    assert(trees_view(Seq::<WidgetTree>::empty()) =~= Seq::<NodeModel>::empty());
                    assert(t@ =~= create_m(c0, dv).0);
                }
                t
            },
        }
    }
}

/// Law (identity reuse): when a description carries an identity the cache
/// holds, and the retained node's concrete kind matches, building the
/// description yields that very node — its assigned rectangle and children
/// persist, its described fields are replaced by the description's, and
/// undescribed state (a button's press count) is carried over; the cache
/// entry is claimed.
pub proof fn lemma_identity_reuse(c: Map<WidgetKey, NodeModel>, d: DescModel, k: WidgetKey)
    requires
        desc_key(d) == Some(k),
        c.dom().contains(k),
        c[k] is Widget,
        apply_model(d, node_widget(c[k])) is Some,
    ensures
        build_m(c, d).0 == (NodeModel::Widget {
            key: node_key(c[k]),
            allocation: node_allocation(c[k]),
            children: node_children(c[k]),
            widget: apply_model(d, node_widget(c[k]))->Some_0,
        }),
        build_m(c, d).1 == c.remove(k),
        (match (d, node_widget(c[k])) {
            (DescModel::Button(db), crate::widgets::BehaviorModel::Button(bw)) => node_widget(
                build_m(c, d).0,
            ) == crate::widgets::BehaviorModel::Button(
                crate::widgets::button::ButtonWidgetModel {
                    colour: db.colour,
                    tag: db.tag,
                    hint: db.hint,
                    text: db.text,
                    presses: bw.presses,
                },
            ),
            _ => true,
        }),
{
}

/// Law (identity kind-mismatch): when a description carries an identity
/// the cache holds but the retained node's concrete kind differs, a fresh
/// node is created in its place and the stale node is released: it is
/// claimed out of the cache and does not appear in the result.
pub proof fn lemma_identity_kind_mismatch(c: Map<WidgetKey, NodeModel>, d: DescModel, k: WidgetKey)
    requires
        cache_ok(c),
        desc_key(d) == Some(k),
        c.dom().contains(k),
        apply_model(d, node_widget(c[k])) is None,
    ensures
        build_m(c, d) == create_m(c.remove(k), d),
        !build_m(c, d).1.dom().contains(k),
        !(d is Stack) ==> build_m(c, d).0 == (NodeModel::Widget {
            key: Some(k),
            allocation: None::<Rect>,
            children: Seq::<NodeModel>::empty(),
            widget: create_behavior_model(d),
        }),
{
    let c1 = c.remove(k);
    assert(cache_ok(c1));
    lemma_create_m_ok(c1, d);
}

} // verus!
