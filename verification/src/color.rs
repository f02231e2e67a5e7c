//! Colours of the palette.
use vstd::prelude::*;
use vstd::std_specs::ops::AddSpecImpl;

verus! {

/// A colour: four bytes for red, green, blue and alpha.
#[derive(Copy, Clone, Debug, PartialEq, Eq, Structural)]
pub struct Color {
    pub r: u8,
    pub g: u8,
    pub b: u8,
    pub a: u8,
}

/// The rounded-down mean of two bytes.
pub open spec fn mean(x: u8, y: u8) -> u8 {
    ((x + y) / 2) as u8
}

impl Color {
    /// The colour with the given parts.
    pub fn new(r: u8, g: u8, b: u8, a: u8) -> (c: Color)
        ensures
            c == (Color { r, g, b, a }),
    {
        Color { r, g, b, a }
    }

    /// The colour of a palette slot that was never set: an opaque mid-gray.
    pub open spec fn gray() -> Color {
        Color { r: 75, g: 75, b: 75, a: 255 }
    }

    /// The four bytes of the colour on the wire: red, green, blue, alpha.
    pub open spec fn bytes(self) -> Seq<u8> {
        seq![self.r, self.g, self.b, self.a]
    }
}

impl std::ops::Add for Color {
    type Output = Color;

    /// The colour halfway between the two, part by part.
    fn add(self, other: Color) -> (c: Color) {
        let r = ((self.r as u16 + other.r as u16) / 2) as u8;
        let g = ((self.g as u16 + other.g as u16) / 2) as u8;
        let b = ((self.b as u16 + other.b as u16) / 2) as u8;
        let a = ((self.a as u16 + other.a as u16) / 2) as u8;
        Color::new(r, g, b, a)
    }
}

impl AddSpecImpl for Color {
    open spec fn obeys_add_spec() -> bool {
        true
    }

    open spec fn add_req(self, other: Color) -> bool {
        true
    }

    open spec fn add_spec(self, other: Color) -> Color {
        Color {
            r: mean(self.r, other.r),
            g: mean(self.g, other.g),
            b: mean(self.b, other.b),
            a: mean(self.a, other.a),
        }
    }
}

} // verus!
