use vstd::prelude::*;

use crate::pixel::Rgba;

verus! {

/// A terminal color: a 24-bit RGB value.
#[derive(Clone, Copy, Debug, PartialEq, Eq)]
pub enum Color {
    Rgb { r: u8, g: u8, b: u8 },
}

/// One terminal character position: an optional glyph with its color, and
/// the two half-block color slots.
///
/// A block slot is a two-level optional: the outer level distinguishes "no
/// pixel was sampled there" (padding or out of bounds) from "a pixel was
/// sampled"; the inner level distinguishes "transparent, drawn blank" from
/// "opaque, drawn in this color".
#[derive(Clone, Copy, Debug, PartialEq, Eq)]
pub struct Cell {
    pub char: Option<char>,
    pub char_color: Option<Color>,
    pub upper_block: Option<Option<Color>>,
    pub lower_block: Option<Option<Color>>,
}

/// The opacity rule on one possibly-absent pixel: no pixel gives the outer
/// `None`; a fully opaque pixel (alpha 255) gives its RGB value; any other
/// alpha gives "present but blank".  A hard threshold, not alpha blending.
pub open spec fn classify(p: Option<Rgba>) -> Option<Option<Color>> {
    match p {
        Option::None => Option::None,
        Option::Some(px) => if px.a == 255 {
            Option::Some(Option::Some(Color::Rgb { r: px.r, g: px.g, b: px.b }))
        } else {
            Option::Some(Option::None)
        },
    }
}

/// Converts one sampled pixel into a half-block color slot value.
pub fn pixel_to_cell_color(pixel_opt: Option<Rgba>) -> (r: Option<Option<Color>>)
    ensures
        r == classify(pixel_opt),
{
    match pixel_opt {
        None => None,
        Some(p) => {
            if p.a == 255 {
                Some(Some(Color::Rgb { r: p.r, g: p.g, b: p.b }))
            } else {
                Some(None)
            }
        },
    }
}

} // verus!
