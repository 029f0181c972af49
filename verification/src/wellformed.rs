//! Executable checks for the tree's preconditions.
//!
//! The tree operations state their preconditions over the mathematical
//! model; unverified callers (the application shell, tests) can evaluate
//! them at run time through these checks and fail early, as the usage
//! contract demands, instead of calling an operation out of order.

use vstd::prelude::*;

use crate::view::{
    all_laid_out, all_logics_ok, all_materialized, all_subtrees_flat, laid_out, lemma_all_forall,
    lemma_no_views_props, lemma_trees_view, logics_ok, materialized, subtrees_flat, tree_view,
    tree_wf, trees_view, view_count, view_count_seq, NodeModel, WidgetTree,
};
use crate::geom::{rect_wf, Rect, COORD_LIMIT};

verus! {

broadcast use vstd::std_specs::vec::group_vec_axioms;

/// A sequence holds no views exactly when no element does.
pub proof fn lemma_count_seq_zero(s: Seq<NodeModel>)
    ensures
        view_count_seq(s) == 0 <==> (forall|i: int|
            0 <= i < s.len() ==> view_count(#[trigger] s[i]) == 0),
    decreases s,
{
    if s.len() > 0 {
        lemma_count_seq_zero(s.drop_last());
        assert(s.last() == s[s.len() - 1]);
        assert(forall|i: int| 0 <= i < s.len() - 1 ==> s.drop_last()[i] == #[trigger] s[i]);
        assert(forall|i: int|
            0 <= i < s.drop_last().len() ==> #[trigger] s.drop_last()[i] == s[i]);
    }
}

impl Rect {
    /// Whether this rectangle lies on the coordinate grid.
    pub fn is_wf(&self) -> (r: bool)
        ensures
            r == rect_wf(*self),
    {
        -COORD_LIMIT <= self.origin.x && self.origin.x <= COORD_LIMIT && -COORD_LIMIT
            <= self.origin.y && self.origin.y <= COORD_LIMIT && 0 <= self.size.width
            && self.size.width <= COORD_LIMIT && 0 <= self.size.height && self.size.height
            <= COORD_LIMIT
    }
}

impl WidgetTree {
    /// Whether this tree contains no view nodes.
    pub fn has_no_views(&self) -> (r: bool)
        ensures
            r == (view_count(self@) == 0),
        decreases *self,
    {
        match self {
            WidgetTree::View(_) => false,
            WidgetTree::Widget(b) => {
                let ghost cs = trees_view(b.children@);
                proof {
                    lemma_trees_view(b.children@);
                    lemma_count_seq_zero(cs);
                }
                let mut i: usize = 0;
                while i < b.children.len()
                    invariant
                        *self is Widget,
                        (*self)->Widget_0 == b,
                        cs == trees_view(b.children@),
                        i <= b.children@.len(),
                        forall|j: int| 0 <= j < i ==> view_count(#[trigger] cs[j]) == 0,
                    decreases b.children@.len() - i,
                {
                    let c = &b.children[i];
                    proof {
                        lemma_trees_view(b.children@);
                        assert(*c == b.children@[i as int]);
                        assert(cs[i as int] == tree_view(b.children@[i as int]));
                        assert(decreases_to!(*self => (*self)->Widget_0));
                        assert(decreases_to!((*self)->Widget_0 => (*self)->Widget_0.children));
                        assert(decreases_to!(
                            (*self)->Widget_0.children => (*self)->Widget_0.children@));
                        assert(decreases_to!(
                            (*self)->Widget_0.children@
                                => (*self)->Widget_0.children@[i as int]));
                        assert((*self)->Widget_0.children@[i as int] == *c);
                    }
                    if !c.has_no_views() {
                        proof {
                            lemma_count_seq_zero(cs);
                        }
                        return false;
                    }
                    i = i + 1;
                }
                proof {
                    lemma_count_seq_zero(cs);
                }
                true
            },
            WidgetTree::Layout(b) => {
                let ghost cs = trees_view(b.children@);
                proof {
                    lemma_trees_view(b.children@);
                    lemma_count_seq_zero(cs);
                }
                let mut i: usize = 0;
                while i < b.children.len()
                    invariant
                        *self is Layout,
                        (*self)->Layout_0 == b,
                        cs == trees_view(b.children@),
                        i <= b.children@.len(),
                        forall|j: int| 0 <= j < i ==> view_count(#[trigger] cs[j]) == 0,
                    decreases b.children@.len() - i,
                {
                    let c = &b.children[i];
                    proof {
                        lemma_trees_view(b.children@);
                        assert(*c == b.children@[i as int]);
                        assert(cs[i as int] == tree_view(b.children@[i as int]));
                        assert(decreases_to!(*self => (*self)->Layout_0));
                        assert(decreases_to!((*self)->Layout_0 => (*self)->Layout_0.children));
                        assert(decreases_to!(
                            (*self)->Layout_0.children => (*self)->Layout_0.children@));
                        assert(decreases_to!(
                            (*self)->Layout_0.children@
                                => (*self)->Layout_0.children@[i as int]));
                        assert((*self)->Layout_0.children@[i as int] == *c);
                    }
                    if !c.has_no_views() {
                        proof {
                            lemma_count_seq_zero(cs);
                        }
                        return false;
                    }
                    i = i + 1;
                }
                proof {
                    lemma_count_seq_zero(cs);
                }
                true
            },
        }
    }

    /// Whether every view in this tree has a materialized subtree: the
    /// precondition of `update`, `set_rect`, `size_hint`, `event` and
    /// `paint`.
    pub fn is_materialized(&self) -> (r: bool)
        ensures
            r == materialized(self@),
        decreases *self,
    {
        match self {
            WidgetTree::View(b) => {
                match &b.widget {
                    Some(w) => {
                        proof {
                            assert(decreases_to!(*self => (*self)->View_0));
                            assert(decreases_to!((*self)->View_0 => (*self)->View_0.widget));
                            assert(decreases_to!(
                                (*self)->View_0.widget => (*self)->View_0.widget->Some_0));
                            assert((*self)->View_0.widget->Some_0 == *w);
                        }
                        w.is_materialized()
                    },
                    None => false,
                }
            },
            WidgetTree::Widget(b) => {
                let ghost cs = trees_view(b.children@);
                proof {
                    lemma_trees_view(b.children@);
                    lemma_all_forall(cs);
                }
                let mut i: usize = 0;
                while i < b.children.len()
                    invariant
                        *self is Widget,
                        (*self)->Widget_0 == b,
                        cs == trees_view(b.children@),
                        i <= b.children@.len(),
                        forall|j: int| 0 <= j < i ==> materialized(#[trigger] cs[j]),
                    decreases b.children@.len() - i,
                {
                    let c = &b.children[i];
                    proof {
                        lemma_trees_view(b.children@);
                        assert(*c == b.children@[i as int]);
                        assert(cs[i as int] == tree_view(b.children@[i as int]));
                        assert(decreases_to!(*self => (*self)->Widget_0));
                        assert(decreases_to!((*self)->Widget_0 => (*self)->Widget_0.children));
                        assert(decreases_to!(
                            (*self)->Widget_0.children => (*self)->Widget_0.children@));
                        assert(decreases_to!(
                            (*self)->Widget_0.children@
                                => (*self)->Widget_0.children@[i as int]));
                        assert((*self)->Widget_0.children@[i as int] == *c);
                    }
                    if !c.is_materialized() {
                        proof {
                            lemma_all_forall(cs);
                        }
                        return false;
                    }
                    i = i + 1;
                }
                proof {
                    lemma_all_forall(cs);
                }
                true
            },
            WidgetTree::Layout(b) => {
                let ghost cs = trees_view(b.children@);
                proof {
                    lemma_trees_view(b.children@);
                    lemma_all_forall(cs);
                }
                let mut i: usize = 0;
                while i < b.children.len()
                    invariant
                        *self is Layout,
                        (*self)->Layout_0 == b,
                        cs == trees_view(b.children@),
                        i <= b.children@.len(),
                        forall|j: int| 0 <= j < i ==> materialized(#[trigger] cs[j]),
                    decreases b.children@.len() - i,
                {
                    let c = &b.children[i];
                    proof {
                        lemma_trees_view(b.children@);
                        assert(*c == b.children@[i as int]);
                        assert(cs[i as int] == tree_view(b.children@[i as int]));
                        assert(decreases_to!(*self => (*self)->Layout_0));
                        assert(decreases_to!((*self)->Layout_0 => (*self)->Layout_0.children));
                        assert(decreases_to!(
                            (*self)->Layout_0.children => (*self)->Layout_0.children@));
                        assert(decreases_to!(
                            (*self)->Layout_0.children@
                                => (*self)->Layout_0.children@[i as int]));
                        assert((*self)->Layout_0.children@[i as int] == *c);
                    }
                    if !c.is_materialized() {
                        proof {
                            lemma_all_forall(cs);
                        }
                        return false;
                    }
                    i = i + 1;
                }
                proof {
                    lemma_all_forall(cs);
                }
                true
            },
        }
    }

    /// Whether the tree is ready for use: every view's logic can produce
    /// a description and every materialized subtree is flat. This is the
    /// structural precondition of `materialize` and `update`.
    pub fn is_ready(&self) -> (r: bool)
        ensures
            r == tree_wf(self@),
        decreases *self,
    {
        match self {
            WidgetTree::View(b) => {
                if b.view.steps.len() == 0 {
                    proof {
                        crate::description::lemma_descs_view(b.view.steps@);
                    }
                    return false;
                }
                proof {
                    crate::description::lemma_descs_view(b.view.steps@);
                }
                match &b.widget {
                    Some(w) => {
                        let flat = w.has_no_views();
                        proof {
                            if flat {
                                lemma_no_views_props(w@);
                            }
                        }
                        flat
                    },
                    None => true,
                }
            },
            WidgetTree::Widget(b) => {
                let ghost cs = trees_view(b.children@);
                proof {
                    lemma_trees_view(b.children@);
                    lemma_all_forall(cs);
                }
                let mut i: usize = 0;
                while i < b.children.len()
                    invariant
                        *self is Widget,
                        (*self)->Widget_0 == b,
                        cs == trees_view(b.children@),
                        i <= b.children@.len(),
                        forall|j: int|
                            0 <= j < i ==> logics_ok(#[trigger] cs[j]) && subtrees_flat(cs[j]),
                    decreases b.children@.len() - i,
                {
                    let c = &b.children[i];
                    proof {
                        lemma_trees_view(b.children@);
                        assert(*c == b.children@[i as int]);
                        assert(cs[i as int] == tree_view(b.children@[i as int]));
                        assert(decreases_to!(*self => (*self)->Widget_0));
                        assert(decreases_to!((*self)->Widget_0 => (*self)->Widget_0.children));
                        assert(decreases_to!(
                            (*self)->Widget_0.children => (*self)->Widget_0.children@));
                        assert(decreases_to!(
                            (*self)->Widget_0.children@
                                => (*self)->Widget_0.children@[i as int]));
                        assert((*self)->Widget_0.children@[i as int] == *c);
                    }
                    if !c.is_ready() {
                        proof {
                            lemma_all_forall(cs);
                        }
                        return false;
                    }
                    i = i + 1;
                }
                proof {
                    lemma_all_forall(cs);
                }
                true
            },
            WidgetTree::Layout(b) => {
                let ghost cs = trees_view(b.children@);
                proof {
                    lemma_trees_view(b.children@);
                    lemma_all_forall(cs);
                }
                let mut i: usize = 0;
                while i < b.children.len()
                    invariant
                        *self is Layout,
                        (*self)->Layout_0 == b,
                        cs == trees_view(b.children@),
                        i <= b.children@.len(),
                        forall|j: int|
                            0 <= j < i ==> logics_ok(#[trigger] cs[j]) && subtrees_flat(cs[j]),
                    decreases b.children@.len() - i,
                {
                    let c = &b.children[i];
                    proof {
                        lemma_trees_view(b.children@);
                        assert(*c == b.children@[i as int]);
                        assert(cs[i as int] == tree_view(b.children@[i as int]));
                        assert(decreases_to!(*self => (*self)->Layout_0));
                        assert(decreases_to!((*self)->Layout_0 => (*self)->Layout_0.children));
                        assert(decreases_to!(
                            (*self)->Layout_0.children => (*self)->Layout_0.children@));
                        assert(decreases_to!(
                            (*self)->Layout_0.children@
                                => (*self)->Layout_0.children@[i as int]));
                        assert((*self)->Layout_0.children@[i as int] == *c);
                    }
                    if !c.is_ready() {
                        proof {
                            lemma_all_forall(cs);
                        }
                        return false;
                    }
                    i = i + 1;
                }
                proof {
                    lemma_all_forall(cs);
                }
                true
            },
        }
    }
}

impl WidgetTree {
    /// Whether every widget and layout node has an assigned, well-formed
    /// rectangle: the precondition of `event`, `paint` and `rect`.
    pub fn is_laid_out(&self) -> (r: bool)
        ensures
            r == laid_out(self@),
        decreases *self,
    {
        match self {
            WidgetTree::View(b) => {
                match &b.widget {
                    Some(w) => {
                        proof {
                            assert(decreases_to!(*self => (*self)->View_0));
                            assert(decreases_to!((*self)->View_0 => (*self)->View_0.widget));
                            assert(decreases_to!(
                                (*self)->View_0.widget => (*self)->View_0.widget->Some_0));
                            assert((*self)->View_0.widget->Some_0 == *w);
                        }
                        w.is_laid_out()
                    },
                    None => false,
                }
            },
            WidgetTree::Widget(b) => {
                match &b.allocation {
                    Some(r) => r.is_wf(),
                    None => false,
                }
            },
            WidgetTree::Layout(b) => {
                let ok = match &b.allocation {
                    Some(r) => r.is_wf(),
                    None => false,
                };
                if !ok {
                    return false;
                }
                let ghost cs = trees_view(b.children@);
                proof {
                    lemma_trees_view(b.children@);
                    lemma_all_forall(cs);
                }
                let mut i: usize = 0;
                while i < b.children.len()
                    invariant
                        *self is Layout,
                        (*self)->Layout_0 == b,
                        cs == trees_view(b.children@),
                        i <= b.children@.len(),
                        forall|j: int| 0 <= j < i ==> laid_out(#[trigger] cs[j]),
                    decreases b.children@.len() - i,
                {
                    let c = &b.children[i];
                    proof {
                        lemma_trees_view(b.children@);
                        assert(*c == b.children@[i as int]);
                        assert(cs[i as int] == tree_view(b.children@[i as int]));
                        assert(decreases_to!(*self => (*self)->Layout_0));
                        assert(decreases_to!((*self)->Layout_0 => (*self)->Layout_0.children));
                        assert(decreases_to!(
                            (*self)->Layout_0.children => (*self)->Layout_0.children@));
                        assert(decreases_to!(
                            (*self)->Layout_0.children@
                                => (*self)->Layout_0.children@[i as int]));
                        assert((*self)->Layout_0.children@[i as int] == *c);
                    }
                    if !c.is_laid_out() {
                        proof {
                            lemma_all_forall(cs);
                        }
                        return false;
                    }
                    i = i + 1;
                }
                proof {
                    lemma_all_forall(cs);
                }
                true
            },
        }
    }
}

} // verus!
