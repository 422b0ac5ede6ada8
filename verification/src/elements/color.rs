//! Colour decorators: an element in a colour.

use vstd::prelude::*;
use crate::elements::Element;
use crate::slot::{ElementError, Slot, SlotView};
use crate::style::{Palette16, Styles, TextFg};

verus! {

/// An element drawn in a colour of the palette. `Plain` stands for the
/// terminal's own colour.
#[derive(Debug)]
pub enum Color<E> {
    Plain(E),
    Black(E),
    Red(E),
    Green(E),
    Yellow(E),
    Blue(E),
    Magenta(E),
    Cyan(E),
    White(E),
    BrightBlack(E),
    BrightRed(E),
    BrightGreen(E),
    BrightYellow(E),
    BrightBlue(E),
    BrightMagenta(E),
    BrightCyan(E),
    BrightWhite(E),
}

impl<E> Color<E> {
    /// The colour of the palette that the decorator stands for.
    pub open spec fn palette(&self) -> Palette16 {
        match self {
            Color::Plain(_) => Palette16::Default,
            Color::Black(_) => Palette16::Black,
            Color::Red(_) => Palette16::Red,
            Color::Green(_) => Palette16::Green,
            Color::Yellow(_) => Palette16::Yellow,
            Color::Blue(_) => Palette16::Blue,
            Color::Magenta(_) => Palette16::Magenta,
            Color::Cyan(_) => Palette16::Cyan,
            Color::White(_) => Palette16::White,
            Color::BrightBlack(_) => Palette16::BrightBlack,
            Color::BrightRed(_) => Palette16::BrightRed,
            Color::BrightGreen(_) => Palette16::BrightGreen,
            Color::BrightYellow(_) => Palette16::BrightYellow,
            Color::BrightBlue(_) => Palette16::BrightBlue,
            Color::BrightMagenta(_) => Palette16::BrightMagenta,
            Color::BrightCyan(_) => Palette16::BrightCyan,
            Color::BrightWhite(_) => Palette16::BrightWhite,
        }
    }

    /// The element inside the decorator.
    pub open spec fn inner(&self) -> E {
        match self {
            Color::Plain(e) => *e,
            Color::Black(e) => *e,
            Color::Red(e) => *e,
            Color::Green(e) => *e,
            Color::Yellow(e) => *e,
            Color::Blue(e) => *e,
            Color::Magenta(e) => *e,
            Color::Cyan(e) => *e,
            Color::White(e) => *e,
            Color::BrightBlack(e) => *e,
            Color::BrightRed(e) => *e,
            Color::BrightGreen(e) => *e,
            Color::BrightYellow(e) => *e,
            Color::BrightBlue(e) => *e,
            Color::BrightMagenta(e) => *e,
            Color::BrightCyan(e) => *e,
            Color::BrightWhite(e) => *e,
        }
    }

    /// The colour of the palette that the decorator stands for.
    pub fn to_palette(&self) -> (p: Palette16)
        ensures
            p == self.palette(),
    {
        match self {
            Color::Plain(_) => Palette16::Default,
            Color::Black(_) => Palette16::Black,
            Color::Red(_) => Palette16::Red,
            Color::Green(_) => Palette16::Green,
            Color::Yellow(_) => Palette16::Yellow,
            Color::Blue(_) => Palette16::Blue,
            Color::Magenta(_) => Palette16::Magenta,
            Color::Cyan(_) => Palette16::Cyan,
            Color::White(_) => Palette16::White,
            Color::BrightBlack(_) => Palette16::BrightBlack,
            Color::BrightRed(_) => Palette16::BrightRed,
            Color::BrightGreen(_) => Palette16::BrightGreen,
            Color::BrightYellow(_) => Palette16::BrightYellow,
            Color::BrightBlue(_) => Palette16::BrightBlue,
            Color::BrightMagenta(_) => Palette16::BrightMagenta,
            Color::BrightCyan(_) => Palette16::BrightCyan,
            Color::BrightWhite(_) => Palette16::BrightWhite,
        }
    }

    /// The element inside the decorator.
    pub fn content(&self) -> (e: &E)
        ensures
            *e == self.inner(),
    {
        match self {
            Color::Plain(e) => e,
            Color::Black(e) => e,
            Color::Red(e) => e,
            Color::Green(e) => e,
            Color::Yellow(e) => e,
            Color::Blue(e) => e,
            Color::Magenta(e) => e,
            Color::Cyan(e) => e,
            Color::White(e) => e,
            Color::BrightBlack(e) => e,
            Color::BrightRed(e) => e,
            Color::BrightGreen(e) => e,
            Color::BrightYellow(e) => e,
            Color::BrightBlue(e) => e,
            Color::BrightMagenta(e) => e,
            Color::BrightCyan(e) => e,
            Color::BrightWhite(e) => e,
        }
    }

    /// The style that the decorator imposes: its colour, and nothing else.
    pub open spec fn imposed(&self) -> Styles {
        Styles { text_fg: Some(self.palette()) }
    }

    /// The style that the decorator imposes.
    pub fn styles(&self) -> (s: Styles)
        ensures
            s == self.imposed(),
    {
        Styles::new().with(TextFg(self.to_palette()))
    }
}

impl<E: Element> Element for Color<E> {
    /// The element inside is evaluated with the decorator's style imposed
    /// on it, whatever stands around the decorator.
    open spec fn evaluation(&self, prior: SlotView, style_override: Option<Styles>, now: u64) -> Result<
        SlotView,
        ElementError,
    > {
        self.inner().evaluation(prior, Some(self.imposed()), now)
    }

    fn tick(&self, prior: &Slot, style_override: Option<Styles>, now: u64) -> (r: Result<
        Slot,
        ElementError,
    >) {
        self.content().tick(prior, Some(self.styles()), now)
    }
}

} // verus!
