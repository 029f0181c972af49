//! Concrete widget kinds and their retained behaviors.
//!
//! The tree holds widget state behind a closed set of kinds; each kind
//! defines how it is described, applied in place, painted, measured and
//! how it reacts to events.

pub mod box_layout;
pub mod button;
pub mod label;

use vstd::prelude::*;

use crate::geom::Size;
use crate::widgets::button::{ButtonWidget, ButtonWidgetModel};
use crate::widgets::label::{LabelWidget, LabelWidgetModel};

verus! {

/// The retained, concrete state of a widget node: one of the closed set
/// of widget kinds.
pub enum WidgetBehavior {
    Button(ButtonWidget),
    Label(LabelWidget),
}

/// Mathematical model of [`WidgetBehavior`].
#[verifier::ext_equal]
pub enum BehaviorModel {
    Button(ButtonWidgetModel),
    Label(LabelWidgetModel),
}

impl View for WidgetBehavior {
    type V = BehaviorModel;

    open spec fn view(&self) -> BehaviorModel {
        match self {
            WidgetBehavior::Button(w) => BehaviorModel::Button(w@),
            WidgetBehavior::Label(w) => BehaviorModel::Label(w@),
        }
    }
}

/// The natural size a widget reports for itself.
pub open spec fn behavior_hint(b: BehaviorModel) -> Size {
    match b {
        BehaviorModel::Button(w) => w.hint,
        BehaviorModel::Label(w) => w.hint,
    }
}

impl WidgetBehavior {
    /// The widget's self-reported natural size.
    pub fn hint(&self) -> (s: Size)
        ensures
            s == behavior_hint(self@),
    {
        match self {
            WidgetBehavior::Button(w) => w.hint,
            WidgetBehavior::Label(w) => w.hint,
        }
    }
}

} // verus!
