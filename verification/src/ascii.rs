//! Glyphs: the ramp that luminance selects from, and single glyph cells.

use vstd::prelude::*;
use crate::pixel::{Color, Pixel};

verus! {

/// The glyph ramp, from the emptiest glyph to the fullest.
pub const DEFAULT: [char; 10] = [' ', '.', ':', '-', '=', '+', '*', '#', '%', '@'];

/// The glyph ramp as a sequence.
pub open spec fn ramp() -> Seq<char> {
    DEFAULT@
}

/// The glyph of one cell.
#[derive(Clone, Copy, Debug, PartialEq, Eq, Structural)]
pub struct AsciiChar(pub char);

impl AsciiChar {
    /// The glyph for an opacity level below ten: such a cell is as good as
    /// transparent and stays blank. Higher levels have no glyph of their own.
    pub fn from(value: u8) -> (glyph: AsciiChar)
        requires
            value < 10,
        ensures
            glyph.0 == ' ',
    {
        AsciiChar(' ')
    }
}

/// One cell of output: a glyph and the colour it is written in.
#[derive(Clone, Copy, Debug, PartialEq, Eq, Structural)]
pub struct Ascii {
    color: Color,
    ch: AsciiChar,
}

impl Ascii {
    /// The colour of the cell.
    pub closed spec fn spec_color(&self) -> Color {
        self.color
    }

    /// The glyph of the cell.
    pub closed spec fn spec_glyph(&self) -> AsciiChar {
        self.ch
    }

    /// The cell for a pixel whose alpha is below ten: the pixel's colour and
    /// the glyph of its alpha, which is blank.
    pub fn from(value: &Pixel) -> (cell: Ascii)
        requires
            value.a < 10,
        ensures
            cell.color() == value.color_of(),
            cell.glyph() == AsciiChar(' '),
    {
        Ascii { color: value.color(), ch: AsciiChar::from(value.a) }
    }

    /// The colour of the cell.
    #[verifier::when_used_as_spec(spec_color)]
    pub fn color(&self) -> (c: Color)
        ensures
            c == self.color(),
    {
        self.color
    }

    /// The glyph of the cell.
    #[verifier::when_used_as_spec(spec_glyph)]
    pub fn glyph(&self) -> (g: AsciiChar)
        ensures
            g == self.glyph(),
    {
        self.ch
    }
}

} // verus!
