//! Plain geometry and color values shared by the layout engine and the draw
//! adapter. All coordinates and sizes are integer layout units with the
//! origin at the top-left corner and y growing downward.

use vstd::prelude::*;

verus! {

/// A point in screen space, in layout units.
#[derive(Clone, Copy, PartialEq, Eq, Structural, Debug)]
pub struct Point {
    pub x: u64,
    pub y: u64,
}

/// A width/height pair, in layout units.
#[derive(Clone, Copy, PartialEq, Eq, Structural, Debug)]
pub struct Size {
    pub width: u64,
    pub height: u64,
}

/// An axis-aligned rectangle: origin at the top-left corner.
#[derive(Clone, Copy, PartialEq, Eq, Structural, Debug)]
pub struct Rect {
    pub x: u64,
    pub y: u64,
    pub width: u64,
    pub height: u64,
}

impl Rect {
    /// A rectangle the engine lays text out in keeps every coordinate small
    /// enough that positions computed inside it stay within `u64` arithmetic.
    pub open spec fn wf(self) -> bool {
        self.x <= u32::MAX && self.y <= u32::MAX && self.width <= u32::MAX && self.height
            <= u32::MAX
    }

    pub fn new(x: u64, y: u64, width: u64, height: u64) -> (r: Rect)
        ensures
            r == (Rect { x, y, width, height }),
    {
        Rect { x, y, width, height }
    }
}

/// An RGBA color with 8-bit channels. The engine never blends colors; it only
/// carries them through to the draw primitives, and tests `a == 0` to decide
/// whether a background fill is emitted at all.
#[derive(Clone, Copy, PartialEq, Eq, Structural, Debug)]
pub struct Color {
    pub r: u8,
    pub g: u8,
    pub b: u8,
    pub a: u8,
}

pub open spec fn spec_transparent() -> Color {
    Color { r: 0, g: 0, b: 0, a: 0 }
}

pub open spec fn spec_black() -> Color {
    Color { r: 0, g: 0, b: 0, a: 255 }
}

/// The fully transparent color; a background of this color is not drawn.
pub fn transparent() -> (c: Color)
    ensures
        c == spec_transparent(),
{
    Color { r: 0, g: 0, b: 0, a: 0 }
}

/// Opaque black, the default text color.
pub fn black() -> (c: Color)
    ensures
        c == spec_black(),
{
    Color { r: 0, g: 0, b: 0, a: 255 }
}

} // verus!
