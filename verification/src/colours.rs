//! The colour of a single pixel.
//!
//! Colour-space utilities (named palettes, hex parsing, blending) are the
//! business of callers; the rasterizer only stores and compares colours, so
//! the type here is a plain RGB triple.

use vstd::prelude::*;

verus! {

/// An RGB colour with 8 bits per channel.
#[derive(Copy, Clone, Debug, PartialEq, Eq, Structural)]
pub struct Colour {
    pub red: u8,
    pub green: u8,
    pub blue: u8,
}

impl Colour {
    /// Creates a colour from its three channels.
    pub fn new(red: u8, green: u8, blue: u8) -> (c: Colour)
        ensures
            c == (Colour { red, green, blue }),
    {
        Colour { red, green, blue }
    }
}

} // verus!
