//! The retained tree.
//!
//! A retained node is one of three kinds: a view node owning a lazily
//! materialized subtree, per-view user data and the view logic that
//! describes the subtree; a widget node owning its identity, assigned
//! rectangle and concrete widget state; or a layout node owning an
//! assigned rectangle, an ordered child sequence and a layout policy.

use vstd::prelude::*;

use crate::app::AppInner;
use crate::description::{descs_view, lemma_descs_view, DescModel, Description, WidgetKey};
use crate::geom::{rect_wf, Position, Rect};
use crate::user_data::{UserData, UserDataModel};
use crate::widgets::box_layout::LayoutPolicy;
use crate::widgets::{BehaviorModel, WidgetBehavior};

verus! {

broadcast use vstd::std_specs::vec::group_vec_axioms;

/// The application-supplied logic of a view node: a script of
/// descriptions, one consumed per rebuild. Once the script is exhausted
/// the last description is reproduced on every further rebuild.
pub struct ViewLogic {
    pub steps: Vec<Description>,
    pub next: usize,
}

/// Mathematical model of [`ViewLogic`].
#[verifier::ext_equal]
pub struct LogicModel {
    pub steps: Seq<DescModel>,
    pub next: int,
}

impl View for ViewLogic {
    type V = LogicModel;

    open spec fn view(&self) -> LogicModel {
        LogicModel { steps: descs_view(self.steps@), next: self.next as int }
    }
}

/// What one invocation of the view logic yields: the produced description
/// and the stepped logic.
pub open spec fn produce_model(l: LogicModel) -> (DescModel, LogicModel) {
    let i = if l.next < l.steps.len() {
        l.next
    } else {
        l.steps.len() - 1
    };
    (
        l.steps[i],
        LogicModel {
            steps: l.steps,
            next: if l.next < l.steps.len() {
                l.next + 1
            } else {
                l.next
            },
        },
    )
}

impl ViewLogic {
    /// View logic that yields the given descriptions in order, then keeps
    /// yielding the last one.
    pub fn new(steps: Vec<Description>) -> (l: ViewLogic)
        requires
            steps@.len() > 0,
        ensures
            l@ == (LogicModel { steps: descs_view(steps@), next: 0 }),
    {
        ViewLogic { steps, next: 0 }
    }

    /// Invoke the logic: produce the next description of the script.
    pub(crate) fn produce(&mut self) -> (d: Description)
        requires
            old(self)@.steps.len() > 0,
        ensures
            d@ == produce_model(old(self)@).0,
            final(self)@ == produce_model(old(self)@).1,
    {
        proof {
            lemma_descs_view(self.steps@);
        }
        let i = if self.next < self.steps.len() {
            self.next
        } else {
            self.steps.len() - 1
        };
        let d = self.steps[i].clone();
        if self.next < self.steps.len() {
            self.next = self.next + 1;
        }
        d
    }
}

/// A view node: the unit of rebuild scoping.
pub struct ViewNode {
    /// The process-unique identity the dirty set refers to.
    pub view_id: u64,
    /// The materialized subtree; `None` only before first
    /// materialization.
    pub widget: Option<WidgetTree>,
    /// This view's own user data, if any; otherwise descendants see the
    /// nearest enclosing view's data.
    pub user_data: Option<UserData>,
    /// The logic that describes the subtree on each rebuild.
    pub view: ViewLogic,
}

/// A widget node: concrete application-visible state.
pub struct WidgetNode {
    /// The identity used to match this node to a description on a
    /// rebuild; a node without one is never reused.
    pub key: Option<WidgetKey>,
    /// The rectangle assigned by layout; `None` only before the first
    /// layout pass after creation.
    pub allocation: Option<Rect>,
    /// Nested retained children, for compound widgets.
    pub children: Vec<WidgetTree>,
    /// The concrete widget state.
    pub widget: WidgetBehavior,
}

/// A layout node: an ordered child sequence under a layout policy.
pub struct LayoutNode {
    /// The rectangle assigned by layout; `None` only before the first
    /// layout pass after creation.
    pub allocation: Option<Rect>,
    pub children: Vec<WidgetTree>,
    pub layout: LayoutPolicy,
}

/// A retained node: one of the three node kinds.
pub enum WidgetTree {
    View(Box<ViewNode>),
    Widget(Box<WidgetNode>),
    Layout(Box<LayoutNode>),
}

/// Mathematical model of a retained node.
#[verifier::ext_equal]
pub enum NodeModel {
    View {
        view_id: u64,
        subtree: Option<Box<NodeModel>>,
        user_data: Option<UserDataModel>,
        logic: LogicModel,
    },
    Widget {
        key: Option<WidgetKey>,
        allocation: Option<Rect>,
        children: Seq<NodeModel>,
        widget: BehaviorModel,
    },
    Layout { allocation: Option<Rect>, children: Seq<NodeModel>, layout: LayoutPolicy },
}

/// The model of an optional user-data value.
pub open spec fn opt_data_view(d: Option<UserData>) -> Option<UserDataModel> {
    match d {
        Some(u) => Some(u@),
        None => None,
    }
}

/// The model a retained node denotes.
pub open spec fn tree_view(t: WidgetTree) -> NodeModel
    decreases t,
{
    match t {
        WidgetTree::View(b) => NodeModel::View {
            view_id: b.view_id,
            subtree: match b.widget {
                Some(w) => Some(Box::new(tree_view(w))),
                None => None,
            },
            user_data: opt_data_view(b.user_data),
            logic: b.view@,
        },
        WidgetTree::Widget(b) => NodeModel::Widget {
            key: b.key,
            allocation: b.allocation,
            children: trees_view(b.children@),
            widget: b.widget@,
        },
        WidgetTree::Layout(b) => NodeModel::Layout {
            allocation: b.allocation,
            children: trees_view(b.children@),
            layout: b.layout,
        },
    }
}

/// The models a sequence of retained nodes denotes, in order.
pub open spec fn trees_view(s: Seq<WidgetTree>) -> Seq<NodeModel>
    decreases s,
{
    if s.len() == 0 {
        Seq::empty()
    } else {
        trees_view(s.drop_last()).push(tree_view(s.last()))
    }
}

impl View for WidgetTree {
    type V = NodeModel;

    open spec fn view(&self) -> NodeModel {
        tree_view(*self)
    }
}

/// The length of `trees_view` matches its input's, elementwise.
pub proof fn lemma_trees_view(s: Seq<WidgetTree>)
    ensures
        trees_view(s).len() == s.len(),
        forall|i: int| 0 <= i < s.len() ==> trees_view(s)[i] == tree_view(s[i]),
    decreases s,
{
    if s.len() > 0 {
        lemma_trees_view(s.drop_last());
        assert forall|i: int| 0 <= i < s.len() implies trees_view(s)[i] == tree_view(s[i]) by {
            if i < s.len() - 1 {
                assert(trees_view(s)[i] == trees_view(s.drop_last())[i]);
                assert(s.drop_last()[i] == s[i]);
            }
        }
    }
}

/// Every view node in the tree has a materialized subtree.
pub open spec fn materialized(m: NodeModel) -> bool
    decreases m,
{
    match m {
        NodeModel::View { subtree, .. } => match subtree {
            Some(w) => materialized(*w),
            None => false,
        },
        NodeModel::Widget { children, .. } => all_materialized(children),
        NodeModel::Layout { children, .. } => all_materialized(children),
    }
}

/// Every node of the sequence is materialized.
pub open spec fn all_materialized(s: Seq<NodeModel>) -> bool
    decreases s,
{
    if s.len() == 0 {
        true
    } else {
        all_materialized(s.drop_last()) && materialized(s.last())
    }
}

/// Every widget and layout node has an assigned, well-formed rectangle
/// (and every view's subtree likewise).
pub open spec fn laid_out(m: NodeModel) -> bool
    decreases m,
{
    match m {
        NodeModel::View { subtree, .. } => match subtree {
            Some(w) => laid_out(*w),
            None => false,
        },
        NodeModel::Widget { allocation, .. } => match allocation {
            Some(r) => rect_wf(r),
            None => false,
        },
        NodeModel::Layout { allocation, children, .. } => match allocation {
            Some(r) => rect_wf(r) && all_laid_out(children),
            None => false,
        },
    }
}

/// Every node of the sequence is laid out.
pub open spec fn all_laid_out(s: Seq<NodeModel>) -> bool
    decreases s,
{
    if s.len() == 0 {
        true
    } else {
        all_laid_out(s.drop_last()) && laid_out(s.last())
    }
}

/// Every view node's logic has at least one script step, so a rebuild can
/// always produce a description.
pub open spec fn logics_ok(m: NodeModel) -> bool
    decreases m,
{
    match m {
        NodeModel::View { subtree, logic, .. } => logic.steps.len() > 0 && match subtree {
            Some(w) => logics_ok(*w),
            None => true,
        },
        NodeModel::Widget { children, .. } => all_logics_ok(children),
        NodeModel::Layout { children, .. } => all_logics_ok(children),
    }
}

/// Every node of the sequence has workable view logic.
pub open spec fn all_logics_ok(s: Seq<NodeModel>) -> bool
    decreases s,
{
    if s.len() == 0 {
        true
    } else {
        all_logics_ok(s.drop_last()) && logics_ok(s.last())
    }
}

/// The number of view nodes in the tree; the rebuild recursions terminate
/// because a freshly built subtree contains none.
pub open spec fn view_count(m: NodeModel) -> nat
    decreases m,
{
    match m {
        NodeModel::View { subtree, .. } => 1 + match subtree {
            Some(w) => view_count(*w),
            None => 0nat,
        },
        NodeModel::Widget { children, .. } => view_count_seq(children),
        NodeModel::Layout { children, .. } => view_count_seq(children),
    }
}

/// The number of view nodes across a sequence of trees.
pub open spec fn view_count_seq(s: Seq<NodeModel>) -> nat
    decreases s,
{
    if s.len() == 0 {
        0nat
    } else {
        view_count_seq(s.drop_last()) + view_count(s.last())
    }
}

/// Every materialized subtree in the tree is "flat": built from
/// descriptions, it contains no view nodes of its own. The library
/// maintains this for every tree it builds.
pub open spec fn subtrees_flat(m: NodeModel) -> bool
    decreases m,
{
    match m {
        NodeModel::View { subtree, .. } => match subtree {
            Some(w) => view_count(*w) == 0,
            None => true,
        },
        NodeModel::Widget { children, .. } => all_subtrees_flat(children),
        NodeModel::Layout { children, .. } => all_subtrees_flat(children),
    }
}

/// Every node of the sequence has flat subtrees.
pub open spec fn all_subtrees_flat(s: Seq<NodeModel>) -> bool
    decreases s,
{
    if s.len() == 0 {
        true
    } else {
        all_subtrees_flat(s.drop_last()) && subtrees_flat(s.last())
    }
}

/// The structural well-formedness the tree operations preserve: every
/// view's logic can produce a description, and every materialized subtree
/// is flat.
pub open spec fn tree_wf(m: NodeModel) -> bool {
    logics_ok(m) && subtrees_flat(m)
}

/// A tree without view nodes is trivially materialized, has workable
/// logic everywhere, and is flat.
pub proof fn lemma_no_views_props(m: NodeModel)
    requires
        view_count(m) == 0,
    ensures
        materialized(m),
        logics_ok(m),
        subtrees_flat(m),
    decreases m,
{
    match m {
        NodeModel::View { .. } => {
            assert(false);
        },
        NodeModel::Widget { children, .. } => {
            lemma_no_views_props_seq(children);
        },
        NodeModel::Layout { children, .. } => {
            lemma_no_views_props_seq(children);
        },
    }
}

/// Sequence form of [`lemma_no_views_props`].
pub proof fn lemma_no_views_props_seq(s: Seq<NodeModel>)
    requires
        view_count_seq(s) == 0,
    ensures
        all_materialized(s),
        all_logics_ok(s),
        all_subtrees_flat(s),
    decreases s,
{
    if s.len() > 0 {
        lemma_no_views_props_seq(s.drop_last());
        lemma_no_views_props(s.last());
    }
}

/// The sequence-level predicates restrict each element.
pub proof fn lemma_all_element(s: Seq<NodeModel>, i: int)
    requires
        0 <= i < s.len(),
    ensures
        all_materialized(s) ==> materialized(s[i]),
        all_logics_ok(s) ==> logics_ok(s[i]),
        all_subtrees_flat(s) ==> subtrees_flat(s[i]),
        all_laid_out(s) ==> laid_out(s[i]),
    decreases s,
{
    if i == s.len() - 1 {
        assert(s.last() == s[i]);
    } else {
        lemma_all_element(s.drop_last(), i);
        assert(s.drop_last()[i] == s[i]);
    }
}

/// The sequence-level predicates are exactly elementwise.
pub proof fn lemma_all_forall(s: Seq<NodeModel>)
    ensures
        all_materialized(s) <==> (forall|i: int|
            0 <= i < s.len() ==> materialized(#[trigger] s[i])),
        all_logics_ok(s) <==> (forall|i: int| 0 <= i < s.len() ==> logics_ok(#[trigger] s[i])),
        all_subtrees_flat(s) <==> (forall|i: int|
            0 <= i < s.len() ==> subtrees_flat(#[trigger] s[i])),
        all_laid_out(s) <==> (forall|i: int| 0 <= i < s.len() ==> laid_out(#[trigger] s[i])),
    decreases s,
{
    if s.len() > 0 {
        lemma_all_forall(s.drop_last());
        assert(s.last() == s[s.len() - 1]);
        assert(forall|i: int| 0 <= i < s.len() - 1 ==> s.drop_last()[i] == #[trigger] s[i]);
        assert(forall|i: int|
            0 <= i < s.drop_last().len() ==> #[trigger] s.drop_last()[i] == s[i]);
    }
}

/// Sequences whose elements hold equally many views have the same total.
pub proof fn lemma_count_seq_elementwise(a: Seq<NodeModel>, b: Seq<NodeModel>)
    requires
        a.len() == b.len(),
        forall|i: int| 0 <= i < a.len() ==> view_count(#[trigger] a[i]) == view_count(b[i]),
    ensures
        view_count_seq(a) == view_count_seq(b),
    decreases a,
{
    if a.len() > 0 {
        assert(forall|i: int|
            0 <= i < a.len() - 1 ==> #[trigger] a.drop_last()[i] == a[i] && b.drop_last()[i]
                == b[i]);
        lemma_count_seq_elementwise(a.drop_last(), b.drop_last());
        assert(view_count(a.last()) == view_count(b[a.len() - 1]));
    }
}

/// Each element contributes at most the whole sequence's view count.
pub proof fn lemma_view_count_seq_element(s: Seq<NodeModel>, i: int)
    requires
        0 <= i < s.len(),
    ensures
        view_count(s[i]) <= view_count_seq(s),
    decreases s,
{
    if i == s.len() - 1 {
        assert(s.last() == s[i]);
    } else {
        lemma_view_count_seq_element(s.drop_last(), i);
        assert(s.drop_last()[i] == s[i]);
    }
}

/// The identity a widget node carries (no other node kind has one).
pub open spec fn node_key(n: NodeModel) -> Option<WidgetKey> {
    match n {
        NodeModel::Widget { key, .. } => key,
        _ => None,
    }
}

/// The rectangle assigned to a widget or layout node.
pub open spec fn node_allocation(n: NodeModel) -> Option<Rect> {
    match n {
        NodeModel::Widget { allocation, .. } => allocation,
        NodeModel::Layout { allocation, .. } => allocation,
        _ => None,
    }
}

/// The children of a widget or layout node.
pub open spec fn node_children(n: NodeModel) -> Seq<NodeModel> {
    match n {
        NodeModel::Widget { children, .. } => children,
        NodeModel::Layout { children, .. } => children,
        _ => Seq::empty(),
    }
}

/// The concrete widget state of a widget node.
pub open spec fn node_widget(n: NodeModel) -> BehaviorModel {
    match n {
        NodeModel::Widget { widget, .. } => widget,
        _ => vstd::pervasive::arbitrary(),
    }
}

/// The read-only state a widget is shown during painting: the rectangle
/// it was assigned.
#[derive(Clone, Copy, PartialEq, Eq, Structural, Debug)]
pub struct WidgetState {
    pub rect: Rect,
}

impl WidgetState {
    /// The rectangle assigned to the widget, in its parent's coordinate
    /// space.
    pub fn rect(&self) -> (r: Rect)
        ensures
            r == self.rect,
    {
        self.rect
    }

    /// The same rectangle in the widget's own coordinate space: the
    /// origin is zero, the size is kept.
    pub fn local_rect(&self) -> (r: Rect)
        ensures
            r.origin == (Position { x: 0, y: 0 }),
            r.size == self.rect.size,
    {
        Rect { origin: Position { x: 0, y: 0 }, size: self.rect.size }
    }
}

/// The handle through which a view-model reaches the invalidation
/// registry: it records the identity of every live view node built from
/// that view-model, and `update` marks them all dirty. This is the only
/// sanctioned back-reference from application state to the tree.
pub struct ViewRefs {
    ids: Vec<u64>,
}

impl View for ViewRefs {
    type V = Seq<u64>;

    closed spec fn view(&self) -> Seq<u64> {
        self.ids@
    }
}

impl ViewRefs {
    /// A handle with no registered views.
    pub fn new() -> (r: ViewRefs)
        ensures
            r@ == Seq::<u64>::empty(),
    {
        ViewRefs { ids: Vec::new() }
    }

    /// Record one view identity to notify.
    pub fn init(&mut self, view_id: u64)
        ensures
            final(self)@ == old(self)@.push(view_id),
    {
        self.ids.push(view_id);
    }

    /// Mark every registered view dirty: each will rebuild on the next
    /// iteration.
    pub fn update(&self, app: &mut AppInner)
        ensures
            final(app).views_to_update@ == old(app).views_to_update@.union(self@.to_set()),
            final(app).view_id_counter == old(app).view_id_counter,
    {
        let mut i: usize = 0;
        while i < self.ids.len()
            invariant
                i <= self.ids.len(),
                app.view_id_counter == old(app).view_id_counter,
                forall|x: u64| #[trigger] app.views_to_update@.contains(x) <==> (old(
                    app,
                ).views_to_update@.contains(x) || exists|j: int|
                    0 <= j < i && self.ids@[j] == x),
            decreases self.ids.len() - i,
        {
            app.update_view(self.ids[i]);
            i += 1;
        }
        proof {
            assert forall|x: u64| #[trigger]
                app.views_to_update@.contains(x) <==> (old(app).views_to_update@.contains(x)
                || self@.to_set().contains(x)) by {
                if self@.to_set().contains(x) {
                    let j = choose|j: int| 0 <= j < self@.len() && self@[j] == x;
                    assert(exists|j: int| 0 <= j < self.ids@.len() && self.ids@[j] == x);
                }
                if app.views_to_update@.contains(x) && !old(app).views_to_update@.contains(x) {
                    let j = choose|j: int| 0 <= j < self.ids@.len() && self.ids@[j] == x;
                    assert(self@.contains(x));
                }
            }
            assert(app.views_to_update@ =~= old(app).views_to_update@.union(self@.to_set()));
        }
    }
}

/// Creates retained nodes of the three kinds.
pub struct WidgetTreeFactory {}

impl WidgetTreeFactory {
    pub fn new() -> (f: WidgetTreeFactory) {
        WidgetTreeFactory {  }
    }

    /// A fresh view node: it is assigned a process-unique identity, which
    /// is registered with the view-model's handle, and its subtree stays
    /// unmaterialized until `materialize` runs.
    pub fn new_view(
        &self,
        app: &mut AppInner,
        refs: &mut ViewRefs,
        view: ViewLogic,
        user_data: Option<UserData>,
    ) -> (t: WidgetTree)
        requires
            view@.steps.len() > 0,
            old(app).view_id_counter < u64::MAX,
        ensures
            t@ == (NodeModel::View {
                view_id: old(app).view_id_counter,
                subtree: None::<Box<NodeModel>>,
                user_data: opt_data_view(user_data),
                logic: view@,
            }),
            final(app).view_id_counter == old(app).view_id_counter + 1,
            final(app).views_to_update@ == old(app).views_to_update@,
            final(refs)@ == old(refs)@.push(old(app).view_id_counter),
    {
        let view_id = app.new_view_id();
        refs.init(view_id);
        WidgetTree::View(
            Box::new(ViewNode { view_id, widget: None, user_data, view }),
        )
    }

    /// A fresh widget node with no assigned rectangle and no children.
    pub fn new_widget(&self, key: Option<WidgetKey>, widget: WidgetBehavior) -> (t: WidgetTree)
        ensures
            t@ == (NodeModel::Widget {
                key,
                allocation: None::<Rect>,
                children: Seq::<NodeModel>::empty(),
                widget: widget@,
            }),
    {
        let ghost wv = widget@;
        let children: Vec<WidgetTree> = Vec::new();
        let node = WidgetNode { key, allocation: None, children, widget };
        let t = WidgetTree::Widget(Box::new(node));
        proof {
            assert(trees_view(Seq::<WidgetTree>::empty()) =~= Seq::<NodeModel>::empty());
            assert(t@ =~= (NodeModel::Widget {
                key,
                allocation: None::<Rect>,
                children: Seq::<NodeModel>::empty(),
                widget: wv,
            }));
        }
        t
    }

    /// A fresh layout node over the given children, with no assigned
    /// rectangle.
    pub fn new_layout(&self, layout: LayoutPolicy, children: Vec<WidgetTree>) -> (t: WidgetTree)
        ensures
            t@ == (NodeModel::Layout {
                allocation: None::<Rect>,
                children: trees_view(children@),
                layout,
            }),
    {
        WidgetTree::Layout(Box::new(LayoutNode { allocation: None, children, layout }))
    }
}

} // verus!
