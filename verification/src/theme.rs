//! The light and dark colour themes.

use vstd::prelude::*;

verus! {

/// An RGBA colour with 8-bit channels (alpha 255 is opaque).
#[derive(Debug, Clone, Copy, PartialEq, Eq, Structural)]
pub struct Color {
    pub r: u8,
    pub g: u8,
    pub b: u8,
    pub a: u8,
}

impl Color {
    /// An opaque colour from its three channels.
    pub fn from_rgb(r: u8, g: u8, b: u8) -> (c: Color)
        ensures
            c == (Color { r, g, b, a: 255 }),
    {
        Color { r, g, b, a: 255 }
    }

    /// An opaque grey: all three channels equal to `level`.
    pub fn from_gray(level: u8) -> (c: Color)
        ensures
            c == (Color { r: level, g: level, b: level, a: 255 }),
    {
        Color { r: level, g: level, b: level, a: 255 }
    }

    /// The fully transparent colour.
    pub fn transparent() -> (c: Color)
        ensures
            c == (Color { r: 0, g: 0, b: 0, a: 0 }),
    {
        Color { r: 0, g: 0, b: 0, a: 0 }
    }

    pub fn r(&self) -> (v: u8)
        ensures
            v == self.r,
    {
        self.r
    }

    pub fn g(&self) -> (v: u8)
        ensures
            v == self.g,
    {
        self.g
    }

    pub fn b(&self) -> (v: u8)
        ensures
            v == self.b,
    {
        self.b
    }

    pub fn a(&self) -> (v: u8)
        ensures
            v == self.a,
    {
        self.a
    }
}

#[derive(Debug, Clone, Copy, PartialEq, Eq, Structural)]
pub enum Theme {
    Light,
    Dark,
}

pub open spec fn rgb(r: u8, g: u8, b: u8) -> Color {
    Color { r, g, b, a: 255 }
}

pub open spec fn gray(level: u8) -> Color {
    Color { r: level, g: level, b: level, a: 255 }
}

/// The heading font size in points for a heading level; levels outside
/// 1..=5 use the body size.
pub open spec fn spec_heading_size(level: u8) -> u32 {
    if level == 1 {
        32
    } else if level == 2 {
        26
    } else if level == 3 {
        22
    } else if level == 4 {
        18
    } else if level == 5 {
        16
    } else {
        14
    }
}

impl Theme {
    pub open spec fn spec_text_color(self) -> Color {
        if self == Theme::Light {
            gray(60)
        } else {
            gray(190)
        }
    }

    pub open spec fn spec_strong_text_color(self) -> Color {
        if self == Theme::Light {
            gray(0)
        } else {
            gray(255)
        }
    }

    pub open spec fn spec_code_bg(self) -> Color {
        if self == Theme::Light {
            rgb(246, 248, 250)
        } else {
            rgb(30, 30, 46)
        }
    }

    pub open spec fn spec_link_color(self) -> Color {
        if self == Theme::Light {
            rgb(9, 105, 218)
        } else {
            rgb(88, 166, 255)
        }
    }

    pub open spec fn spec_table_stripe_bg(self) -> Color {
        if self == Theme::Light {
            rgb(236, 240, 244)
        } else {
            rgb(38, 44, 54)
        }
    }

    pub open spec fn spec_toggle(self) -> Theme {
        match self {
            Theme::Light => Theme::Dark,
            Theme::Dark => Theme::Light,
        }
    }

    /// The other theme.
    pub fn toggle(&self) -> (t: Theme)
        ensures
            t == self.spec_toggle(),
    {
        match self {
            Theme::Light => Theme::Dark,
            Theme::Dark => Theme::Light,
        }
    }

    /// The name of the syntax-highlighting theme that goes with this theme.
    pub fn syntect_theme_name(&self) -> (name: &'static str)
        ensures
            *self == Theme::Light ==> name@ == "InspiredGitHub"@,
            *self == Theme::Dark ==> name@ == "base16-ocean.dark"@,
    {
        match self {
            Theme::Light => "InspiredGitHub",
            Theme::Dark => "base16-ocean.dark",
        }
    }

    /// Background of code blocks and inline code.
    pub fn code_bg(&self) -> (c: Color)
        ensures
            c == self.spec_code_bg(),
    {
        match self {
            Theme::Light => Color::from_rgb(246, 248, 250),
            Theme::Dark => Color::from_rgb(30, 30, 46),
        }
    }

    /// Colour of link text.
    pub fn link_color(&self) -> (c: Color)
        ensures
            c == self.spec_link_color(),
    {
        match self {
            Theme::Light => Color::from_rgb(9, 105, 218),
            Theme::Dark => Color::from_rgb(88, 166, 255),
        }
    }

    /// Colour of the bar to the left of a block quote.
    pub fn blockquote_border(&self) -> (c: Color)
        ensures
            c == (if *self == Theme::Light { rgb(208, 215, 222) } else { rgb(48, 54, 61) }),
    {
        match self {
            Theme::Light => Color::from_rgb(208, 215, 222),
            Theme::Dark => Color::from_rgb(48, 54, 61),
        }
    }

    /// Background of a block quote.
    pub fn blockquote_bg(&self) -> (c: Color)
        ensures
            c == (if *self == Theme::Light { rgb(246, 248, 250) } else { rgb(22, 27, 34) }),
    {
        match self {
            Theme::Light => Color::from_rgb(246, 248, 250),
            Theme::Dark => Color::from_rgb(22, 27, 34),
        }
    }

    /// Font size in points of a heading of the given level (the same for
    /// both themes).
    pub fn heading_size(&self, level: u8) -> (size: u32)
        ensures
            size == spec_heading_size(level),
    {
        match level {
            1 => 32,
            2 => 26,
            3 => 22,
            4 => 18,
            5 => 16,
            _ => 14,
        }
    }

    /// Label of the button that switches to the other theme.
    pub fn icon_label(&self) -> (label: &'static str)
        ensures
            *self == Theme::Light ==> label@ == "🌙 Dark"@,
            *self == Theme::Dark ==> label@ == "☀ Light"@,
    {
        match self {
            Theme::Light => "🌙 Dark",
            Theme::Dark => "☀ Light",
        }
    }

    /// Colour of body text.
    pub fn text_color(&self) -> (c: Color)
        ensures
            c == self.spec_text_color(),
    {
        match self {
            Theme::Light => Color::from_gray(60),
            Theme::Dark => Color::from_gray(190),
        }
    }

    /// Colour of bold text.
    pub fn strong_text_color(&self) -> (c: Color)
        ensures
            c == self.spec_strong_text_color(),
    {
        match self {
            Theme::Light => Color::from_gray(0),
            Theme::Dark => Color::from_gray(255),
        }
    }

    /// Colour of table rules.
    pub fn table_border(&self) -> (c: Color)
        ensures
            c == (if *self == Theme::Light { gray(200) } else { gray(60) }),
    {
        match self {
            Theme::Light => Color::from_gray(200),
            Theme::Dark => Color::from_gray(60),
        }
    }

    /// Background of every other table body row.
    pub fn table_stripe_bg(&self) -> (c: Color)
        ensures
            c == self.spec_table_stripe_bg(),
    {
        match self {
            Theme::Light => Color::from_rgb(236, 240, 244),
            Theme::Dark => Color::from_rgb(38, 44, 54),
        }
    }
}

impl Default for Theme {
    fn default() -> (t: Theme)
        ensures
            t == Theme::Dark,
    {
        Theme::Dark
    }
}

/// Toggling twice gives back the theme one started with, and toggling
/// always changes the theme.
pub proof fn lemma_toggle_involution(t: Theme)
    ensures
        t.spec_toggle().spec_toggle() == t,
        t.spec_toggle() != t,
{
}

/// Heading sizes never grow with the level, a level-1 heading is the largest
/// text, and every level past 5 (and level 0) is set at the body size of
/// level 6.
pub proof fn lemma_heading_sizes_decrease(a: u8, b: u8)
    requires
        1 <= a <= b,
    ensures
        spec_heading_size(a) >= spec_heading_size(b),
        spec_heading_size(1) >= spec_heading_size(a),
        b >= 6 ==> spec_heading_size(b) == spec_heading_size(6),
        spec_heading_size(0) == spec_heading_size(6),
{
}

/// In both themes the body text and the bold text differ, every palette
/// colour is opaque, light text sits on the dark theme and dark text on the
/// light one.
pub proof fn lemma_palette_contrast(t: Theme)
    ensures
        (if t == Theme::Light { gray(60) } else { gray(190) }) != (if t == Theme::Light {
            gray(0)
        } else {
            gray(255)
        }),
        t == Theme::Light ==> gray(60).r < 128,
        t == Theme::Dark ==> gray(190).r > 128,
{
}

} // verus!
