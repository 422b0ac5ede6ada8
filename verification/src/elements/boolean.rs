//! Truth values.

use vstd::prelude::*;
use vstd::string::StringExecFns;
use crate::elements::Element;
use crate::slot::{ElementError, Slot, SlotView};
use crate::style::{Palette16, Styles, TextFg};

verus! {

/// The text that stands for a truth value.
pub open spec fn truth_text(value: bool) -> Seq<char> {
    if value {
        " TRUE ●"@
    } else {
        "FALSE ○"@
    }
}

/// The colour of a truth value that no decorator colours: green for true,
/// red for false.
pub open spec fn truth_style(value: bool, style_override: Option<Styles>) -> Styles {
    match style_override {
        Some(s) => s,
        None => Styles {
            text_fg: Some(
                if value {
                    Palette16::Green
                } else {
                    Palette16::Red
                },
            ),
        },
    }
}

impl Element for bool {
    open spec fn evaluation(&self, prior: SlotView, style_override: Option<Styles>, now: u64) -> Result<
        SlotView,
        ElementError,
    > {
        Ok(
            SlotView {
                content: truth_text(*self),
                style: truth_style(*self, style_override),
                ..prior
            },
        )
    }

    fn tick(&self, prior: &Slot, style_override: Option<Styles>, now: u64) -> (r: Result<
        Slot,
        ElementError,
    >) {
        let content = if *self {
            String::from_str(" TRUE ●")
        } else {
            String::from_str("FALSE ○")
        };
        let style = match style_override {
            Some(s) => s,
            None => if *self {
                Styles::new().with(TextFg(Palette16::Green))
            } else {
                Styles::new().with(TextFg(Palette16::Red))
            },
        };
        Ok(
            Slot {
                content,
                style,
                numeric: prior.numeric,
                timer: prior.timer,
                stopped: prior.stopped,
                progress: prior.progress,
            },
        )
    }
}

} // verus!
