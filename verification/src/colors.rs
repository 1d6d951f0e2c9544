use vstd::prelude::*;

verus! {

/// A display colour with eight bits per channel.
#[derive(Debug, Copy, Clone, PartialEq, Eq, Hash, Structural)]
pub struct Rgba {
    pub r: u8,
    pub g: u8,
    pub b: u8,
    pub a: u8,
}

/// How many colours the food palette holds.
pub const PALETTE_SIZE: usize = 8;

/// The colour obstacles are drawn in.
pub open spec fn spec_obstacle_color() -> Rgba {
    Rgba { r: 179, g: 179, b: 179, a: 255 }
}

#[verifier::when_used_as_spec(spec_obstacle_color)]
pub fn obstacle_color() -> (c: Rgba)
    ensures
        c == spec_obstacle_color(),
{
    Rgba { r: 179, g: 179, b: 179, a: 255 }
}

/// The food palette: red, green, blue, yellow, orange, purple, cyan, pink.
/// Indices past the end fall back to the last entry.
pub open spec fn spec_palette_color(index: int) -> Rgba {
    if index == 0 {
        Rgba { r: 255, g: 0, b: 0, a: 255 }
    } else if index == 1 {
        Rgba { r: 0, g: 255, b: 0, a: 255 }
    } else if index == 2 {
        Rgba { r: 0, g: 0, b: 255, a: 255 }
    } else if index == 3 {
        Rgba { r: 255, g: 255, b: 0, a: 255 }
    } else if index == 4 {
        Rgba { r: 255, g: 165, b: 0, a: 255 }
    } else if index == 5 {
        Rgba { r: 128, g: 0, b: 128, a: 255 }
    } else if index == 6 {
        Rgba { r: 0, g: 255, b: 255, a: 255 }
    } else {
        Rgba { r: 255, g: 191, b: 204, a: 255 }
    }
}

/// Looks a palette entry up by its index.
pub fn palette_color(index: usize) -> (c: Rgba)
    ensures
        c == spec_palette_color(index as int),
{
    if index == 0 {
        Rgba { r: 255, g: 0, b: 0, a: 255 }
    } else if index == 1 {
        Rgba { r: 0, g: 255, b: 0, a: 255 }
    } else if index == 2 {
        Rgba { r: 0, g: 0, b: 255, a: 255 }
    } else if index == 3 {
        Rgba { r: 255, g: 255, b: 0, a: 255 }
    } else if index == 4 {
        Rgba { r: 255, g: 165, b: 0, a: 255 }
    } else if index == 5 {
        Rgba { r: 128, g: 0, b: 128, a: 255 }
    } else if index == 6 {
        Rgba { r: 0, g: 255, b: 255, a: 255 }
    } else {
        Rgba { r: 255, g: 191, b: 204, a: 255 }
    }
}

/// The colour that a CSS colour string denotes, as eight-bit channels, or
/// `None` where the string is no CSS colour.
pub uninterp spec fn css_rgba8(text: Seq<char>) -> Option<Rgba>;

/// Parses a CSS colour string with `csscolorparser::parse` and reads the colour
/// off with `Color::to_rgba8`. The parser is a pure function of the text, so
/// the result is the named value `css_rgba8` of that text; nothing more is
/// claimed about which strings parse or to what.
#[verifier::external_body]
pub(crate) fn parse_css_color(text: &str) -> (c: Option<Rgba>)
    ensures
        c == css_rgba8(text@),
{
    match csscolorparser::parse(text) {
        Ok(color) => {
            let channels = color.to_rgba8();
            Some(Rgba { r: channels[0], g: channels[1], b: channels[2], a: channels[3] })
        },
        Err(_) => None,
    }
}

} // verus!
