//! The button widget: a coloured, clickable rectangle with centred text.

use vstd::prelude::*;

use crate::description::{texts_view, WidgetKey};
use crate::geom::Size;

verus! {

/// An RGBA colour with 8-bit channels.
#[derive(Clone, Copy, PartialEq, Eq, Structural, Debug)]
pub struct Rgba {
    pub r: u8,
    pub g: u8,
    pub b: u8,
    pub a: u8,
}

/// The declarative description of a button, produced fresh on every
/// rebuild of the enclosing view.
pub struct Button {
    pub key: Option<WidgetKey>,
    pub colour: Rgba,
    pub tag: u64,
    pub hint: Size,
    pub text: Vec<String>,
}

/// Mathematical model of [`Button`].
#[verifier::ext_equal]
pub struct ButtonModel {
    pub key: Option<WidgetKey>,
    pub colour: Rgba,
    pub tag: u64,
    pub hint: Size,
    pub text: Seq<Seq<char>>,
}

impl View for Button {
    type V = ButtonModel;

    open spec fn view(&self) -> ButtonModel {
        ButtonModel {
            key: self.key,
            colour: self.colour,
            tag: self.tag,
            hint: self.hint,
            text: texts_view(self.text@),
        }
    }
}

impl Button {
    /// A fresh button description with no identity, no text and the
    /// default natural size.
    pub fn new(colour: Rgba, tag: u64) -> (d: Button)
        ensures
            d@ == (ButtonModel {
                key: None::<WidgetKey>,
                colour,
                tag,
                hint: Size { width: 100, height: 100 },
                text: Seq::<Seq<char>>::empty(),
            }),
    {
        let d = Button {
            key: None,
            colour,
            tag,
            hint: Size { width: 100, height: 100 },
            text: Vec::new(),
        };
        proof {
            assert(d@.text =~= Seq::<Seq<char>>::empty());
        }
        d
    }

    /// Give the description an identity, so that a rebuild can match it to
    /// a retained widget.
    pub fn with_key(self, key: WidgetKey) -> (d: Button)
        ensures
            d@ == (ButtonModel { key: Some(key), ..self@ }),
    {
        Button { key: Some(key), colour: self.colour, tag: self.tag, hint: self.hint, text: self.text }
    }

    /// Override the button's natural size.
    pub fn with_hint(self, hint: Size) -> (d: Button)
        ensures
            d@ == (ButtonModel { hint, ..self@ }),
    {
        Button { key: self.key, colour: self.colour, tag: self.tag, hint, text: self.text }
    }

    /// Append one text run to the button's label.
    pub fn add_text(self, text: String) -> (d: Button)
        ensures
            d@ == (ButtonModel { text: self@.text.push(text@), ..self@ }),
    {
        let ghost pre = self@;
        let ghost tview = text@;
        let mut runs = self.text;
        runs.push(text);
        let d = Button {
            key: self.key,
            colour: self.colour,
            tag: self.tag,
            hint: self.hint,
            text: runs,
        };
        proof {
            assert(d@.text =~= pre.text.push(tview));
        }
        d
    }
}

/// The retained state of a button widget. `presses` counts deliveries of
/// mouse presses and is not described: it survives reconciliation.
pub struct ButtonWidget {
    pub colour: Rgba,
    pub tag: u64,
    pub hint: Size,
    pub text: Vec<String>,
    pub presses: u64,
}

/// Mathematical model of [`ButtonWidget`].
#[verifier::ext_equal]
pub struct ButtonWidgetModel {
    pub colour: Rgba,
    pub tag: u64,
    pub hint: Size,
    pub text: Seq<Seq<char>>,
    pub presses: u64,
}

impl View for ButtonWidget {
    type V = ButtonWidgetModel;

    open spec fn view(&self) -> ButtonWidgetModel {
        ButtonWidgetModel {
            colour: self.colour,
            tag: self.tag,
            hint: self.hint,
            text: texts_view(self.text@),
            presses: self.presses,
        }
    }
}

} // verus!
