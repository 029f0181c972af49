//! The declarative description protocol.
//!
//! A description is a transient value describing one desired retained
//! node. It is consumed exactly once, either by `apply` (mutating a
//! matching retained widget in place) or by `create` (building a fresh
//! node); consumption is enforced by moving the description into the call.

use vstd::prelude::*;

use crate::widgets::box_layout::Stack;
use crate::widgets::button::{Button, ButtonModel, ButtonWidget, ButtonWidgetModel};
use crate::widgets::label::{Label, LabelModel, LabelWidget, LabelWidgetModel};
use crate::widgets::{BehaviorModel, WidgetBehavior};

verus! {

broadcast use vstd::std_specs::vec::group_vec_axioms;

/// The identity of a logical widget across rebuilds of its parent view.
/// Two descriptions with equal identity denote the same logical widget.
#[derive(Clone, Copy, PartialEq, Eq, Structural, Debug)]
pub struct WidgetKey(pub u64);

/// The sequence of character sequences denoted by a vector of strings.
pub open spec fn texts_view(v: Seq<String>) -> Seq<Seq<char>> {
    Seq::new(v.len(), |i: int| v[i]@)
}

/// Clone a vector of text runs, preserving its contents exactly.
pub(crate) fn clone_texts(v: &Vec<String>) -> (r: Vec<String>)
    ensures
        r@ == v@,
{
    let mut r: Vec<String> = Vec::new();
    let mut i: usize = 0;
    while i < v.len()
        invariant
            i <= v.len(),
            r@.len() == i as int,
            forall|j: int| 0 <= j < i ==> r@[j] == v@[j],
        decreases v.len() - i,
    {
        r.push(v[i].clone());
        i += 1;
    }
    proof {
        assert(r@ =~= v@);
    }
    r
}

/// A declarative description of one desired node: one of the closed set
/// of description kinds.
pub enum Description {
    Button(Button),
    Label(Label),
    Stack(Stack),
}

/// Mathematical model of [`Description`].
#[verifier::ext_equal]
pub enum DescModel {
    Button(ButtonModel),
    Label(LabelModel),
    Stack(Seq<DescModel>),
}

/// The model a description denotes.
pub open spec fn desc_view(d: Description) -> DescModel
    decreases d,
{
    match d {
        Description::Button(b) => DescModel::Button(b@),
        Description::Label(l) => DescModel::Label(l@),
        Description::Stack(s) => DescModel::Stack(descs_view(s.children@)),
    }
}

/// The models a sequence of descriptions denotes, in order.
pub open spec fn descs_view(s: Seq<Description>) -> Seq<DescModel>
    decreases s,
{
    if s.len() == 0 {
        Seq::empty()
    } else {
        descs_view(s.drop_last()).push(desc_view(s.last()))
    }
}

impl View for Description {
    type V = DescModel;

    open spec fn view(&self) -> DescModel {
        desc_view(*self)
    }
}

/// The length of `descs_view` matches its input's, elementwise.
pub proof fn lemma_descs_view(s: Seq<Description>)
    ensures
        descs_view(s).len() == s.len(),
        forall|i: int| 0 <= i < s.len() ==> descs_view(s)[i] == desc_view(s[i]),
    decreases s,
{
    if s.len() > 0 {
        lemma_descs_view(s.drop_last());
        assert forall|i: int| 0 <= i < s.len() implies descs_view(s)[i] == desc_view(s[i]) by {
            if i < s.len() - 1 {
                assert(descs_view(s)[i] == descs_view(s.drop_last())[i]);
                assert(s.drop_last()[i] == s[i]);
            }
        }
    }
}

/// The identity a description carries, if any. A description without an
/// identity is never matched to a retained node.
pub open spec fn desc_key(d: DescModel) -> Option<WidgetKey> {
    match d {
        DescModel::Button(b) => b.key,
        DescModel::Label(l) => l.key,
        DescModel::Stack(_) => None,
    }
}

/// What applying a description to an existing widget behavior yields:
/// `Some` of the updated behavior when the concrete kinds match (described
/// fields are replaced, undescribed state such as a button's press count
/// persists), `None` on a kind mismatch.
pub open spec fn apply_model(d: DescModel, b: BehaviorModel) -> Option<BehaviorModel> {
    match d {
        DescModel::Button(db) => match b {
            BehaviorModel::Button(bw) => Some(
                BehaviorModel::Button(
                    ButtonWidgetModel {
                        colour: db.colour,
                        tag: db.tag,
                        hint: db.hint,
                        text: db.text,
                        presses: bw.presses,
                    },
                ),
            ),
            _ => None,
        },
        DescModel::Label(dl) => match b {
            BehaviorModel::Label(_) => Some(
                BehaviorModel::Label(LabelWidgetModel { hint: dl.hint, text: dl.text }),
            ),
            _ => None,
        },
        DescModel::Stack(_) => None,
    }
}

/// The fresh widget behavior a non-stack description creates.
pub open spec fn create_behavior_model(d: DescModel) -> BehaviorModel {
    match d {
        DescModel::Button(db) => BehaviorModel::Button(
            ButtonWidgetModel {
                colour: db.colour,
                tag: db.tag,
                hint: db.hint,
                text: db.text,
                presses: 0,
            },
        ),
        DescModel::Label(dl) => BehaviorModel::Label(
            LabelWidgetModel { hint: dl.hint, text: dl.text },
        ),
        DescModel::Stack(_) => BehaviorModel::Label(
            LabelWidgetModel {
                hint: crate::geom::Size { width: 0, height: 0 },
                text: Seq::empty(),
            },
        ),
    }
}

impl Description {
    /// The identity this description carries, or `None` for a description
    /// that is never reused.
    pub fn key(&self) -> (k: Option<WidgetKey>)
        ensures
            k == desc_key(self@),
    {
        match self {
            Description::Button(b) => b.key,
            Description::Label(l) => l.key,
            Description::Stack(_) => None,
        }
    }

    /// Attempt to update an existing widget behavior in place. Succeeds
    /// exactly when the concrete kinds match; on mismatch the behavior is
    /// untouched and the description is handed back unconsumed.
    pub fn apply(self, w: &mut WidgetBehavior) -> (r: Result<(), Description>)
        ensures
            match apply_model(self@, old(w)@) {
                Some(bm) => r is Ok && final(w)@ == bm,
                None => *final(w) == *old(w) && r == Err::<(), Description>(self),
            },
    {
        match self {
            Description::Button(d) => {
                match w {
                    WidgetBehavior::Button(bw) => {
                        bw.colour = d.colour;
                        bw.tag = d.tag;
                        bw.hint = d.hint;
                        bw.text = d.text;
                        Ok(())
                    },
                    _ => Err(Description::Button(d)),
                }
            },
            Description::Label(d) => {
                match w {
                    WidgetBehavior::Label(lw) => {
                        lw.hint = d.hint;
                        lw.text = d.text;
                        Ok(())
                    },
                    _ => Err(Description::Label(d)),
                }
            },
            Description::Stack(s) => Err(Description::Stack(s)),
        }
    }

    /// The fresh widget behavior this description creates. Stacks create
    /// layout nodes, not widgets, so this is for button and label
    /// descriptions only.
    pub(crate) fn into_behavior(self) -> (b: WidgetBehavior)
        requires
            !(self@ is Stack),
        ensures
            b@ == create_behavior_model(self@),
    {
        match self {
            Description::Button(d) => WidgetBehavior::Button(
                ButtonWidget {
                    colour: d.colour,
                    tag: d.tag,
                    hint: d.hint,
                    text: d.text,
                    presses: 0,
                },
            ),
            Description::Label(d) => WidgetBehavior::Label(
                LabelWidget { hint: d.hint, text: d.text },
            ),
            Description::Stack(_) => vstd::pervasive::unreached(),
        }
    }
}

impl Clone for Description {
    /// Deep-copy a description, preserving its model exactly.
    fn clone(&self) -> (res: Self)
        ensures
            res@ == self@,
        decreases *self,
    {
        match self {
            Description::Button(b) => {
                let d = Description::Button(
                    Button {
                        key: b.key,
                        colour: b.colour,
                        tag: b.tag,
                        hint: b.hint,
                        text: clone_texts(&b.text),
                    },
                );
                proof {
                    assert(d@->Button_0 =~= self@->Button_0);
                }
                d
            },
            Description::Label(l) => {
                let d = Description::Label(
                    Label { key: l.key, hint: l.hint, text: clone_texts(&l.text) },
                );
                proof {
                    assert(d@->Label_0 =~= self@->Label_0);
                }
                d
            },
            Description::Stack(s) => {
                let mut out: Vec<Description> = Vec::new();
                let mut i: usize = 0;
                while i < s.children.len()
                    invariant
                        *self == Description::Stack(*s),
                        i <= s.children.len(),
                        out@.len() == i as int,
                        forall|j: int| 0 <= j < i ==> out@[j]@ == s.children@[j]@,
                    decreases s.children.len() - i,
                {
                    proof {
                        assert(decreases_to!(*self => (*self)->Stack_0));
                        assert((*self)->Stack_0 == *s);
                        assert(decreases_to!(*s => s.children));
                        assert(decreases_to!(s.children => s.children@));
                        assert(decreases_to!(s.children@ => s.children@[i as int]));
                    }
                    let c = s.children[i].clone();
                    out.push(c);
                    i += 1;
                }
                let d = Description::Stack(Stack { children: out });
                proof {
                    lemma_descs_view(out@);
                    lemma_descs_view(s.children@);
                    assert(d@->Stack_0 =~= self@->Stack_0);
                }
                d
            },
        }
    }
}

} // verus!
