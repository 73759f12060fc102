//! Colours as the host's renderer receives them, kept in whole numbers.

use vstd::prelude::*;

verus! {

/// An sRGB colour. Each channel is given in hundredths of full intensity,
/// so `(20, 20, 50)` is the colour a renderer writes as `(0.2, 0.2, 0.5)`.
#[derive(Clone, Copy, Debug, PartialEq, Eq, Structural)]
pub struct Color {
    pub red: u8,
    pub green: u8,
    pub blue: u8,
}

impl Color {
    /// The colour with the given channels, in hundredths.
    pub fn srgb(red: u8, green: u8, blue: u8) -> (color: Color)
        ensures
            color == (Color { red, green, blue }),
    {
        Color { red, green, blue }
    }
}

} // verus!
