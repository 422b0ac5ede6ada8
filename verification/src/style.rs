//! Styling of a rendered value: one foreground colour out of a sixteen-colour
//! terminal palette.

use vstd::prelude::*;

verus! {

/// The sixteen-colour terminal palette, together with `Default` (the
/// terminal's own foreground) and `Hidden`.
#[derive(Debug, Clone, Copy, PartialEq, Eq, Structural)]
pub enum Palette16 {
    Black,
    Red,
    Green,
    Yellow,
    Blue,
    Magenta,
    Cyan,
    White,
    BrightBlack,
    BrightRed,
    BrightGreen,
    BrightYellow,
    BrightBlue,
    BrightMagenta,
    BrightCyan,
    BrightWhite,
    Default,
    Hidden,
}

impl Palette16 {
    /// Position of the colour in the palette, counted from `Black`.
    pub open spec fn spec_code(self) -> u8 {
        match self {
            Palette16::Black => 0,
            Palette16::Red => 1,
            Palette16::Green => 2,
            Palette16::Yellow => 3,
            Palette16::Blue => 4,
            Palette16::Magenta => 5,
            Palette16::Cyan => 6,
            Palette16::White => 7,
            Palette16::BrightBlack => 8,
            Palette16::BrightRed => 9,
            Palette16::BrightGreen => 10,
            Palette16::BrightYellow => 11,
            Palette16::BrightBlue => 12,
            Palette16::BrightMagenta => 13,
            Palette16::BrightCyan => 14,
            Palette16::BrightWhite => 15,
            Palette16::Default => 16,
            Palette16::Hidden => 17,
        }
    }

    /// Position of the colour in the palette, counted from `Black`.
    #[verifier::when_used_as_spec(spec_code)]
    pub fn code(self) -> (c: u8)
        ensures
            c == self.spec_code(),
            c < 18,
    {
        match self {
            Palette16::Black => 0,
            Palette16::Red => 1,
            Palette16::Green => 2,
            Palette16::Yellow => 3,
            Palette16::Blue => 4,
            Palette16::Magenta => 5,
            Palette16::Cyan => 6,
            Palette16::White => 7,
            Palette16::BrightBlack => 8,
            Palette16::BrightRed => 9,
            Palette16::BrightGreen => 10,
            Palette16::BrightYellow => 11,
            Palette16::BrightBlue => 12,
            Palette16::BrightMagenta => 13,
            Palette16::BrightCyan => 14,
            Palette16::BrightWhite => 15,
            Palette16::Default => 16,
            Palette16::Hidden => 17,
        }
    }
}

/// The foreground colour of a piece of text.
#[derive(Debug, Clone, Copy, PartialEq, Eq, Structural)]
pub struct TextFg(pub Palette16);

/// The attributes a value is drawn with: at present a foreground colour,
/// which may be left unset.
#[derive(Debug, Clone, Copy, PartialEq, Eq, Structural)]
pub struct Styles {
    pub text_fg: Option<Palette16>,
}

impl Styles {
    /// The styles in which no attribute has been set.
    pub open spec fn plain() -> Styles {
        Styles { text_fg: None }
    }

    /// The styles in which no attribute has been set.
    pub fn new() -> (s: Styles)
        ensures
            s == Styles::plain(),
    {
        Styles { text_fg: None }
    }

    /// These styles with the foreground colour replaced.
    pub fn with(self, style: TextFg) -> (s: Styles)
        ensures
            s == (Styles { text_fg: Some(style.0) }),
    {
        Styles { text_fg: Some(style.0) }
    }
}

impl Default for Styles {
    fn default() -> (s: Styles)
        ensures
            s == Styles::plain(),
    {
        Styles::new()
    }
}

/// The style an element ends up with: the decorator's, where one wraps it,
/// else the one the node already had.
pub open spec fn resolved_style(prior: Styles, style_override: Option<Styles>) -> Styles {
    match style_override {
        Some(s) => s,
        None => prior,
    }
}

/// The style an element ends up with.
pub fn resolve_style(prior: Styles, style_override: Option<Styles>) -> (s: Styles)
    ensures
        s == resolved_style(prior, style_override),
{
    match style_override {
        Some(s) => s,
        None => prior,
    }
}

} // verus!
