//! View-models: application state that backs one or more view nodes.
//!
//! A view-model owns the handle through which it can mark every view node
//! built from it dirty; the toolkit registers each such view's identity
//! on the handle when the node is created.

use vstd::prelude::*;

use crate::view::ViewRefs;

verus! {

/// Application state paired with the invalidation handle for the view
/// nodes built from it.
pub struct ViewModel<S> {
    /// The application's own state.
    pub state: S,
    /// The identities of the live view nodes backed by this state;
    /// `ViewRefs::update` marks them all dirty.
    pub refs: ViewRefs,
}

impl<S> ViewModel<S> {
    /// Wrap application state with an empty invalidation handle.
    pub fn new(state: S) -> (m: ViewModel<S>)
        ensures
            m.state == state,
            m.refs@ == Seq::<u64>::empty(),
    {
        ViewModel { state, refs: ViewRefs::new() }
    }
}

/// The view-model of the sample button screen: it carries no state of its
/// own beyond what the per-view user data records.
pub struct ButtonViewModel {}

} // verus!
