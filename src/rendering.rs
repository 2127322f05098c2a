use vstd::prelude::*;

use crate::geom::Vec2;

verus! {

/// An RGBA colour.
#[derive(Clone, Copy, PartialEq, Eq, Structural, Debug)]
pub struct Color {
    pub r: u8,
    pub g: u8,
    pub b: u8,
    pub a: u8,
}

/// A drawing that the gameplay asks the render layer to make. Positions
/// are in fixed-point units; directions are headings in tenths of a degree.
#[derive(Clone, PartialEq, Eq, Debug)]
pub enum DrawCommand {
    ColoredSquare { pos: Vec2, color: Color },
    Ship { pos: Vec2, dir: u32 },
    Asteroid { pos: Vec2, size: u32, dir: u32 },
    Text { pos: Vec2, text: String, size: i32, color: Color },
    Gun { pos: Vec2, dir: u32 },
    Line { start: Vec2, end: Vec2, color: Color },
}

/// The red of warnings.
pub open spec fn red() -> Color {
    Color { r: 230, g: 41, b: 55, a: 255 }
}

pub fn red_color() -> (r: Color)
    ensures
        r == red(),
{
    Color { r: 230, g: 41, b: 55, a: 255 }
}

} // verus!
