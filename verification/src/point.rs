//! Shared geometric data: graph vertices, screen rectangles, and the
//! direction and progress markers used while a path is drawn.

use vstd::prelude::*;

verus! {

/// A 2-D point.  The tracer uses it as a graph vertex `(lane, row)`;
/// the renderer uses it for concrete screen coordinates.
#[derive(Debug, Clone, Copy, PartialEq, Eq, Hash, Structural)]
pub struct Point {
    pub x: i32,
    pub y: i32,
}

impl Point {
    pub fn new(x: i32, y: i32) -> (p: Point)
        ensures
            p.x == x,
            p.y == y,
    {
        Point { x, y }
    }
}

/// The direction of one path segment on screen.
#[derive(Debug, Clone, Copy, PartialEq, Eq, Structural)]
pub enum LineDirection {
    Left,
    Right,
    Down,
}

/// Where the per-round animation stands.
#[derive(Debug, Clone, Copy, PartialEq, Eq, Structural)]
pub enum RenderingState {
    Idle,
    Drawing,
    Done,
}

/// An axis-aligned rectangle in rendering space, described by its top-left
/// corner and its extent.
#[derive(Debug, Clone, Copy, PartialEq, Eq, Structural)]
pub struct Rect {
    pub x: u16,
    pub y: u16,
    pub width: u16,
    pub height: u16,
}

impl Rect {
    pub fn new(x: u16, y: u16, width: u16, height: u16) -> (r: Rect)
        ensures
            r.x == x,
            r.y == y,
            r.width == width,
            r.height == height,
    {
        Rect { x, y, width, height }
    }
}

} // verus!
