//! Per-view user data.
//!
//! A view node may own a user-data value; during event dispatch the nearest
//! enclosing view's data is handed to the widget that the event routes to.
//! The data records every press delivered to a widget, which is how
//! application state observes input.

use vstd::prelude::*;

use crate::geom::Position;

verus! {

/// One press delivered to a widget: the widget's tag and the event point
/// translated into the widget's local origin.
#[derive(Clone, Copy, PartialEq, Eq, Structural, Debug)]
pub struct Press {
    pub tag: u64,
    pub pos: Position,
}

/// The opaque per-view state threaded through event dispatch.
pub struct UserData {
    pub presses: Vec<Press>,
}

/// Mathematical model of [`UserData`].
#[verifier::ext_equal]
pub struct UserDataModel {
    pub presses: Seq<Press>,
}

impl View for UserData {
    type V = UserDataModel;

    open spec fn view(&self) -> UserDataModel {
        UserDataModel { presses: self.presses@ }
    }
}

impl UserData {
    /// Fresh user data with an empty press log.
    pub fn new() -> (d: UserData)
        ensures
            d@.presses == Seq::<Press>::empty(),
    {
        UserData { presses: Vec::new() }
    }
}

} // verus!
