//! Colors: three 8-bit channels, no alpha.
use vstd::prelude::*;

verus! {

/// A color with red, green and blue channels in `0..=255`.
#[derive(Clone, Copy, PartialEq, Eq, Structural, Debug)]
pub struct Rgb {
    pub r: u8,
    pub g: u8,
    pub b: u8,
}

/// The color of a pixel that nothing has been drawn on.
pub open spec fn blank_spec() -> Rgb {
    Rgb { r: 0, g: 0, b: 0 }
}

impl Rgb {
    pub fn new(r: u8, g: u8, b: u8) -> (c: Rgb)
        ensures
            c == (Rgb { r, g, b }),
    {
        Rgb { r, g, b }
    }

    /// The blank color (black).
    pub fn blank() -> (c: Rgb)
        ensures
            c == blank_spec(),
    {
        Rgb { r: 0, g: 0, b: 0 }
    }
}

/// A few named flat colors.
#[derive(Clone, Copy, PartialEq, Eq, Structural, Debug)]
pub enum Color {
    Red,
    Green,
    Blue,
}

pub open spec fn color_rgb(c: Color) -> Rgb {
    match c {
        Color::Red => Rgb { r: 255, g: 0, b: 0 },
        Color::Green => Rgb { r: 0, g: 255, b: 0 },
        Color::Blue => Rgb { r: 0, g: 0, b: 255 },
    }
}

impl Color {
    /// The channel values of this color.
    pub fn rgb(&self) -> (r: Rgb)
        ensures
            r == color_rgb(*self),
    {
        match self {
            Color::Red => Rgb { r: 255, g: 0, b: 0 },
            Color::Green => Rgb { r: 0, g: 255, b: 0 },
            Color::Blue => Rgb { r: 0, g: 0, b: 255 },
        }
    }
}

} // verus!
