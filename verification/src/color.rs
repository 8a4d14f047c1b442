use vstd::prelude::*;

verus! {

/// An RGB color: a triple of octets. Immutable value.
#[derive(Clone, Copy, Debug, PartialEq, Eq, Structural)]
pub struct Color {
    pub r: u8,
    pub g: u8,
    pub b: u8,
}

impl Color {
    pub fn new(r: u8, g: u8, b: u8) -> (c: Color)
        ensures
            c == (Color { r, g, b }),
    {
        Color { r, g, b }
    }

    pub fn from_triple(t: (u8, u8, u8)) -> (c: Color)
        ensures
            c == (Color { r: t.0, g: t.1, b: t.2 }),
    {
        Color { r: t.0, g: t.1, b: t.2 }
    }
}

pub type Rgb = Color;

/// An RGBA color, as produced when a frame is resolved against a
/// palette and a transparent index.
#[derive(Clone, Copy, Debug, PartialEq, Eq, Structural)]
pub struct Rgba {
    pub r: u8,
    pub g: u8,
    pub b: u8,
    pub a: u8,
}

} // verus!
