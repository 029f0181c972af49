//! Toolkit input events.
//!
//! Only mouse press and release are defined by the dispatch protocol; the
//! platform layer translates raw window input into these two events before
//! feeding them to the retained tree.

use vstd::prelude::*;

use crate::geom::Position;

verus! {

/// An input event, carrying the point it happened at in the coordinate
/// space of the node receiving it.
#[derive(Clone, Copy, PartialEq, Eq, Structural, Debug)]
pub enum Event {
    MousePress(Position),
    MouseRelease(Position),
}

impl Event {
    /// The point the event happened at.
    pub fn position(&self) -> (p: Position)
        ensures
            p == event_position(*self),
    {
        match *self {
            Event::MousePress(p) => p,
            Event::MouseRelease(p) => p,
        }
    }
}

/// The point carried by an event.
pub open spec fn event_position(e: Event) -> Position {
    match e {
        Event::MousePress(p) => p,
        Event::MouseRelease(p) => p,
    }
}

} // verus!
