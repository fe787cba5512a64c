//! Pixel colours and the panel's three-colour palette.
use vstd::prelude::*;

verus! {

/// One pixel of a full-colour raster.
#[derive(Clone, Copy, Debug, PartialEq, Eq, Structural)]
pub struct Color {
    pub r: u8,
    pub g: u8,
    pub b: u8,
}

/// The closed set of colours that the panel can show.
#[derive(Clone, Copy, Debug, PartialEq, Eq, Structural)]
pub enum Palette {
    White,
    Black,
    Chromatic,
}

impl Color {
    pub open spec fn spec_white() -> Color {
        Color { r: 255, g: 255, b: 255 }
    }

    pub open spec fn spec_black() -> Color {
        Color { r: 0, g: 0, b: 0 }
    }

    pub open spec fn spec_red() -> Color {
        Color { r: 255, g: 0, b: 0 }
    }

    #[verifier::when_used_as_spec(spec_white)]
    pub fn white() -> (c: Color)
        ensures
            c == Color::spec_white(),
    {
        Color { r: 255, g: 255, b: 255 }
    }

    #[verifier::when_used_as_spec(spec_black)]
    pub fn black() -> (c: Color)
        ensures
            c == Color::spec_black(),
    {
        Color { r: 0, g: 0, b: 0 }
    }

    #[verifier::when_used_as_spec(spec_red)]
    pub fn red() -> (c: Color)
        ensures
            c == Color::spec_red(),
    {
        Color { r: 255, g: 0, b: 0 }
    }
}

/// Perceived brightness of a pixel, 0 to 255: the weighted mean of the
/// channels with weights 0.2126, 0.7152 and 0.0722, rounded down.
pub open spec fn spec_luma(p: Color) -> int {
    (2126 * p.r + 7152 * p.g + 722 * p.b) / 10000
}

/// The palette colour of a pixel. The first rule that matches decides:
/// a saturated red is chromatic, anything else that is darker than 250 is
/// black, the rest is white.
pub open spec fn spec_classify(p: Color) -> Palette {
    if p.r > 250 && p.g < 210 && p.b < 210 {
        Palette::Chromatic
    } else if spec_luma(p) < 250 {
        Palette::Black
    } else {
        Palette::White
    }
}

/// True for the three colours that survive quantization unchanged.
pub open spec fn is_canonical(p: Color) -> bool {
    p == Color::white() || p == Color::black() || p == Color::red()
}

/// The palette colour that a canvas pixel packs to: exact equality with one
/// of the canonical colours, and white for everything else.
pub open spec fn spec_exact(p: Color) -> Palette {
    if p == Color::black() {
        Palette::Black
    } else if p == Color::red() {
        Palette::Chromatic
    } else {
        Palette::White
    }
}

impl Palette {
    /// The canonical colour that stands for this palette entry on a canvas.
    pub open spec fn spec_color(self) -> Color {
        match self {
            Palette::White => Color::white(),
            Palette::Black => Color::black(),
            Palette::Chromatic => Color::red(),
        }
    }

    #[verifier::when_used_as_spec(spec_color)]
    pub fn color(self) -> (c: Color)
        ensures
            c == self.spec_color(),
    {
        match self {
            Palette::White => Color::white(),
            Palette::Black => Color::black(),
            Palette::Chromatic => Color::red(),
        }
    }

    /// Reads a canvas pixel back as a palette entry; see [`spec_exact`].
    pub fn from_exact(p: Color) -> (c: Palette)
        ensures
            c == spec_exact(p),
    {
        if p == Color::black() {
            Palette::Black
        } else if p == Color::red() {
            Palette::Chromatic
        } else {
            Palette::White
        }
    }
}

pub fn luma(p: Color) -> (l: u8)
    ensures
        l == spec_luma(p),
{
    let sum: u32 = 2126 * (p.r as u32) + 7152 * (p.g as u32) + 722 * (p.b as u32);
    (sum / 10000) as u8
}

pub fn classify(p: Color) -> (c: Palette)
    ensures
        c == spec_classify(p),
{
    if p.r > 250 && p.g < 210 && p.b < 210 {
        Palette::Chromatic
    } else if luma(p) < 250 {
        Palette::Black
    } else {
        Palette::White
    }
}

/// The colour a pixel has after quantization.
pub open spec fn spec_quantized(p: Color) -> Color {
    spec_classify(p).spec_color()
}

/// Every quantized pixel is one of the three canonical colours.
pub proof fn lemma_quantized_is_canonical(p: Color)
    ensures
        is_canonical(spec_quantized(p)),
{
}

/// Quantizing a pixel twice gives the same colour as quantizing it once.
pub proof fn lemma_quantized_idempotent(p: Color)
    ensures
        spec_quantized(spec_quantized(p)) == spec_quantized(p),
{
}

} // verus!
