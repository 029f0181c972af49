//! Plain integer geometry: positions, sizes and rectangles.
//!
//! All coordinates live on a bounded integer grid so that every geometric
//! computation in the library is free of overflow.

use vstd::prelude::*;

verus! {

/// Half-open bound on the magnitude of any coordinate the library computes
/// with. Sizes are clamped into `[0, COORD_LIMIT]` and positions are
/// expected in `[-COORD_LIMIT, COORD_LIMIT]`, so any sum of three such
/// values still fits comfortably in an `i64`.
pub const COORD_LIMIT: i64 = 0x4000_0000;

/// A point, in the coordinate space of the enclosing node.
#[derive(Clone, Copy, PartialEq, Eq, Structural, Debug)]
pub struct Position {
    pub x: i64,
    pub y: i64,
}

/// A width/height pair.
#[derive(Clone, Copy, PartialEq, Eq, Structural, Debug)]
pub struct Size {
    pub width: i64,
    pub height: i64,
}

/// An axis-aligned rectangle: an origin and a size.
#[derive(Clone, Copy, PartialEq, Eq, Structural, Debug)]
pub struct Rect {
    pub origin: Position,
    pub size: Size,
}

/// A position is well formed when both coordinates are within the grid.
pub open spec fn pos_wf(p: Position) -> bool {
    &&& -COORD_LIMIT <= p.x <= COORD_LIMIT
    &&& -COORD_LIMIT <= p.y <= COORD_LIMIT
}

/// A size is well formed when both extents are non-negative and within the
/// grid.
pub open spec fn size_wf(s: Size) -> bool {
    &&& 0 <= s.width <= COORD_LIMIT
    &&& 0 <= s.height <= COORD_LIMIT
}

/// A rectangle is well formed when its origin and size are.
pub open spec fn rect_wf(r: Rect) -> bool {
    pos_wf(r.origin) && size_wf(r.size)
}

/// Mathematical containment: `p` lies within `r`, where the right and
/// bottom edges are exclusive.
pub open spec fn rect_contains(r: Rect, p: Position) -> bool {
    &&& r.origin.x <= p.x < r.origin.x + r.size.width
    &&& r.origin.y <= p.y < r.origin.y + r.size.height
}

impl Position {
    pub fn new(x: i64, y: i64) -> (p: Position)
        ensures
            p == (Position { x, y }),
    {
        Position { x, y }
    }

    pub fn zero() -> (p: Position)
        ensures
            p == (Position { x: 0, y: 0 }),
    {
        Position { x: 0, y: 0 }
    }
}

impl Size {
    pub fn new(width: i64, height: i64) -> (s: Size)
        ensures
            s == (Size { width, height }),
    {
        Size { width, height }
    }

    pub fn zero() -> (s: Size)
        ensures
            s == (Size { width: 0, height: 0 }),
    {
        Size { width: 0, height: 0 }
    }
}

impl Rect {
    pub fn new(origin: Position, size: Size) -> (r: Rect)
        ensures
            r == (Rect { origin, size }),
    {
        Rect { origin, size }
    }

    /// Whether `position` lies inside this rectangle (right and bottom
    /// edges exclusive).
    pub fn contains(&self, position: Position) -> (b: bool)
        requires
            rect_wf(*self),
            pos_wf(position),
        ensures
            b == rect_contains(*self, position),
    {
        position.x >= self.origin.x && position.x - self.origin.x < self.size.width
            && position.y >= self.origin.y && position.y - self.origin.y < self.size.height
    }

    /// The rectangle of the given size centred within this one. The inner
    /// size must fit, so the offsets are non-negative.
    pub fn center(&self, size: Size) -> (r: Rect)
        requires
            rect_wf(*self),
            size_wf(size),
            size.width <= self.size.width,
            size.height <= self.size.height,
        ensures
            r.size == size,
            r.origin.x == self.origin.x + (self.size.width - size.width) / 2,
            r.origin.y == self.origin.y + (self.size.height - size.height) / 2,
    {
        let dx = (self.size.width - size.width) / 2;
        let dy = (self.size.height - size.height) / 2;
        Rect {
            origin: Position { x: self.origin.x + dx, y: self.origin.y + dy },
            size,
        }
    }
}

} // verus!
