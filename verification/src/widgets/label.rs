//! The label widget: a passive text run.

use vstd::prelude::*;

use crate::description::{texts_view, WidgetKey};
use crate::geom::Size;

verus! {

/// The declarative description of a label.
pub struct Label {
    pub key: Option<WidgetKey>,
    pub hint: Size,
    pub text: Vec<String>,
}

/// Mathematical model of [`Label`].
#[verifier::ext_equal]
pub struct LabelModel {
    pub key: Option<WidgetKey>,
    pub hint: Size,
    pub text: Seq<Seq<char>>,
}

impl View for Label {
    type V = LabelModel;

    open spec fn view(&self) -> LabelModel {
        LabelModel { key: self.key, hint: self.hint, text: texts_view(self.text@) }
    }
}

impl Label {
    /// A fresh label description with no identity, no text and the default
    /// natural size.
    pub fn new() -> (d: Label)
        ensures
            d@ == (LabelModel {
                key: None::<WidgetKey>,
                hint: Size { width: 100, height: 100 },
                text: Seq::<Seq<char>>::empty(),
            }),
    {
        let d = Label { key: None, hint: Size { width: 100, height: 100 }, text: Vec::new() };
        proof {
            assert(d@.text =~= Seq::<Seq<char>>::empty());
        }
        d
    }

    /// Give the description an identity.
    pub fn with_key(self, key: WidgetKey) -> (d: Label)
        ensures
            d@ == (LabelModel { key: Some(key), ..self@ }),
    {
        Label { key: Some(key), hint: self.hint, text: self.text }
    }

    /// Override the label's natural size.
    pub fn with_hint(self, hint: Size) -> (d: Label)
        ensures
            d@ == (LabelModel { hint, ..self@ }),
    {
        Label { key: self.key, hint, text: self.text }
    }

    /// Append one text run.
    pub fn add_text(self, text: String) -> (d: Label)
        ensures
            d@ == (LabelModel { text: self@.text.push(text@), ..self@ }),
    {
        let ghost pre = self@;
        let ghost tview = text@;
        let mut runs = self.text;
        runs.push(text);
        let d = Label { key: self.key, hint: self.hint, text: runs };
        proof {
            assert(d@.text =~= pre.text.push(tview));
        }
        d
    }
}

/// The retained state of a label widget.
pub struct LabelWidget {
    pub hint: Size,
    pub text: Vec<String>,
}

/// Mathematical model of [`LabelWidget`].
#[verifier::ext_equal]
pub struct LabelWidgetModel {
    pub hint: Size,
    pub text: Seq<Seq<char>>,
}

impl View for LabelWidget {
    type V = LabelWidgetModel;

    open spec fn view(&self) -> LabelWidgetModel {
        LabelWidgetModel { hint: self.hint, text: texts_view(self.text@) }
    }
}

} // verus!
