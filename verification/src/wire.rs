//! Coloured line segments, the form in which paths and markers are handed
//! out for display.
pub use crate::position::Position;
use vstd::prelude::*;

verus! {

/// A colour as red, green and blue.
#[derive(Clone, Copy, Debug, PartialEq, Eq, Structural)]
pub struct Color {
    pub r: u8,
    pub g: u8,
    pub b: u8,
}

/// A straight line from `start` to `end`.
#[derive(Clone, Copy, Debug, PartialEq, Eq, Structural)]
pub struct Wire {
    pub start: Position,
    pub end: Position,
    pub color: Color,
}

impl Color {
    /// The colour with the given parts.
    pub fn new(r: u8, g: u8, b: u8) -> (c: Color)
        ensures
            c == (Color { r, g, b }),
    {
        Color { r, g, b }
    }
}

impl Wire {
    /// A white line from `start` to `end`.
    pub fn new(start: Position, end: Position) -> (w: Wire)
        ensures
            w == (Wire { start, end, color: Color { r: 255, g: 255, b: 255 } }),
    {
        Wire { start, end, color: Color { r: 255, g: 255, b: 255 } }
    }
}

} // verus!
