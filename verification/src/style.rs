//! Cell styling: colors and attributes, and their SGR byte encoding.

use vstd::prelude::*;
use crate::color::{color_bytes, Color, ColorEnum, ColorType};

verus! {

/// The style of one cell.  Equality is structural; the diff renderer
/// compares styles to decide when to emit new SGR codes.
#[derive(Clone, Copy, Debug, PartialEq, Eq, Structural)]
pub struct Style {
    pub foreground_color: Color,
    pub background_color: Color,
    pub is_bold: bool,
    pub is_italic: bool,
}

/// The style of a freshly cleared cell: default colors, no attributes.
pub open spec fn default_style() -> Style {
    Style {
        foreground_color: Color { color: ColorEnum::Default },
        background_color: Color { color: ColorEnum::Default },
        is_bold: false,
        is_italic: false,
    }
}

/// The escape bytes that select `s`: background first, then foreground.
pub open spec fn style_bytes(s: Style) -> Seq<u8> {
    color_bytes(s.background_color, ColorType::Background) + color_bytes(
        s.foreground_color,
        ColorType::Foreground,
    )
}

impl Style {
    pub fn background_color(&self) -> (r: Color)
        ensures
            r == self.background_color,
    {
        self.background_color
    }

    pub fn foreground_color(&self) -> (r: Color)
        ensures
            r == self.foreground_color,
    {
        self.foreground_color
    }

    pub fn with_background_color(&self, color: Color) -> (r: Self)
        ensures
            r == (Style { background_color: color, ..*self }),
    {
        Style { background_color: color, ..*self }
    }

    pub fn with_foreground_color(&self, color: Color) -> (r: Self)
        ensures
            r == (Style { foreground_color: color, ..*self }),
    {
        Style { foreground_color: color, ..*self }
    }

    /// The escape bytes that select this style, as `style_bytes` states.
    pub fn to_vec(&self) -> (r: Vec<u8>)
        ensures
            r@ == style_bytes(*self),
    {
        let mut bytes = self.background_color.to_vec(ColorType::Background);
        let mut fg = self.foreground_color.to_vec(ColorType::Foreground);
        bytes.append(&mut fg);
        bytes
    }
}

impl Default for Style {
    fn default() -> (r: Self)
        ensures
            r == default_style(),
    {
        Style {
            foreground_color: Color { color: ColorEnum::Default },
            background_color: Color { color: ColorEnum::Default },
            is_bold: false,
            is_italic: false,
        }
    }
}

} // verus!
