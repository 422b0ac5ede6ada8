//! A state that was worked out elsewhere, for kinds of content that this
//! library does not compute.

use vstd::prelude::*;
use crate::elements::Element;
use crate::slot::{ElementError, Slot, SlotView};
use crate::style::{resolve_style, resolved_style, Styles};

verus! {

/// The state that a node is to have.
#[derive(Debug)]
pub struct Prepared(pub Slot);

impl Element for Prepared {
    /// The node takes the prepared state, whatever it held; a decorator
    /// still imposes its style.
    open spec fn evaluation(&self, prior: SlotView, style_override: Option<Styles>, now: u64) -> Result<
        SlotView,
        ElementError,
    > {
        Ok(SlotView { style: resolved_style(self.0@.style, style_override), ..self.0@ })
    }

    fn tick(&self, prior: &Slot, style_override: Option<Styles>, now: u64) -> (r: Result<
        Slot,
        ElementError,
    >) {
        Ok(
            Slot {
                content: self.0.content.clone(),
                style: resolve_style(self.0.style, style_override),
                numeric: self.0.numeric,
                timer: self.0.timer,
                stopped: self.0.stopped,
                progress: self.0.progress,
            },
        )
    }
}

} // verus!
