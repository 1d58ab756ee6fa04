//! Colors and color styles as the views ask for them.

use vstd::prelude::*;

verus! {

/// One of the 8 base colors.
#[derive(Clone, Copy, Debug, PartialEq, Eq, Structural, Hash)]
pub enum BaseColor {
    /// Black color.
    Black,
    /// Red color.
    Red,
    /// Green color.
    Green,
    /// Yellow color (red and green).
    Yellow,
    /// Blue color.
    Blue,
    /// Magenta color (red and blue).
    Magenta,
    /// Cyan color (green and blue).
    Cyan,
    /// White color (red, green and blue).
    White,
}

impl BaseColor {
    /// The place of the color among the first 8 colors of the terminal's
    /// palette.
    pub open spec fn index(self) -> u8 {
        match self {
            BaseColor::Black => 0u8,
            BaseColor::Red => 1u8,
            BaseColor::Green => 2u8,
            BaseColor::Yellow => 3u8,
            BaseColor::Blue => 4u8,
            BaseColor::Magenta => 5u8,
            BaseColor::Cyan => 6u8,
            BaseColor::White => 7u8,
        }
    }

    /// The place of the color among the first 8 colors of the terminal's
    /// palette.
    pub fn palette_index(self) -> (index: u8)
        ensures
            index == self.index(),
            index < 8,
    {
        match self {
            BaseColor::Black => 0,
            BaseColor::Red => 1,
            BaseColor::Green => 2,
            BaseColor::Yellow => 3,
            BaseColor::Blue => 4,
            BaseColor::Magenta => 5,
            BaseColor::Cyan => 6,
            BaseColor::White => 7,
        }
    }
}

/// A color to draw with.
#[derive(Clone, Copy, Debug, PartialEq, Eq, Structural, Hash)]
pub enum Color {
    /// One of the 8 base colors.
    Dark(BaseColor),
    /// The lighter version of a base color.
    Light(BaseColor),
    /// True color: red, green and blue, each from 0 to 255.
    Rgb(u8, u8, u8),
    /// Low resolution: red, green and blue, each from 0 to 5.
    RgbLowRes(u8, u8, u8),
}

/// A pair of colors, foreground and background, for one part of the
/// screen.
#[derive(Clone, Copy, Debug, PartialEq, Eq, Structural, Hash)]
pub enum ColorStyle {
    /// The application background, where no view is.
    Background,
    /// The shadow of a view.
    Shadow,
    /// The main text, on the background of a view.
    Primary,
    /// Text of second rank.
    Secondary,
    /// Text of third rank.
    Tertiary,
    /// An important title.
    TitlePrimary,
    /// A title of second rank.
    TitleSecondary,
    /// The selected element, with the focus on it.
    Highlight,
    /// The selected element, without the focus.
    HighlightInactive,
}

impl ColorStyle {
    /// The number under which a backend keeps the colors of the style.
    pub open spec fn number(self) -> i16 {
        match self {
            ColorStyle::Background => 1i16,
            ColorStyle::Shadow => 2i16,
            ColorStyle::Primary => 3i16,
            ColorStyle::Secondary => 4i16,
            ColorStyle::Tertiary => 5i16,
            ColorStyle::TitlePrimary => 6i16,
            ColorStyle::TitleSecondary => 7i16,
            ColorStyle::Highlight => 8i16,
            ColorStyle::HighlightInactive => 9i16,
        }
    }

    /// The number under which a backend keeps the colors of the style.
    pub fn id(self) -> (id: i16)
        ensures
            id == self.number(),
            1 <= id <= 9,
    {
        match self {
            ColorStyle::Background => 1,
            ColorStyle::Shadow => 2,
            ColorStyle::Primary => 3,
            ColorStyle::Secondary => 4,
            ColorStyle::Tertiary => 5,
            ColorStyle::TitlePrimary => 6,
            ColorStyle::TitleSecondary => 7,
            ColorStyle::Highlight => 8,
            ColorStyle::HighlightInactive => 9,
        }
    }

    /// Two styles with the same number are the same style.
    pub proof fn lemma_number_tells_apart(self, other: ColorStyle)
        requires
            self.number() == other.number(),
        ensures
            self == other,
    {
    }
}

} // verus!
