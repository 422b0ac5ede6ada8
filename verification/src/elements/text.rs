//! Plain text.

use vstd::prelude::*;
use vstd::string::StringExecFns;
use crate::elements::Element;
use crate::slot::{ElementError, Slot, SlotView};
use crate::style::{resolve_style, resolved_style, Styles};

verus! {

/// A piece of text, displayed as it is.
#[derive(Debug)]
pub struct Text(pub String);

/// The state of a node whose text was replaced by `content`: the style is
/// the decorator's, where there is one; everything else stays.
pub open spec fn with_content(prior: SlotView, content: Seq<char>, style_override: Option<Styles>) -> SlotView {
    SlotView { content, style: resolved_style(prior.style, style_override), ..prior }
}

/// Replaces a node's text.
pub fn replace_content(prior: &Slot, content: String, style_override: Option<Styles>) -> (slot: Slot)
    ensures
        slot@ == with_content(prior@, content@, style_override),
{
    Slot {
        content,
        style: resolve_style(prior.style, style_override),
        numeric: prior.numeric,
        timer: prior.timer,
        stopped: prior.stopped,
        progress: prior.progress,
    }
}

impl Element for Text {
    open spec fn evaluation(&self, prior: SlotView, style_override: Option<Styles>, now: u64) -> Result<
        SlotView,
        ElementError,
    > {
        Ok(with_content(prior, self.0@, style_override))
    }

    fn tick(&self, prior: &Slot, style_override: Option<Styles>, now: u64) -> (r: Result<
        Slot,
        ElementError,
    >) {
        Ok(replace_content(prior, self.0.clone(), style_override))
    }
}

impl Element for () {
    /// Nothing to display: the node's text is empty and its style the
    /// decorator's or none.
    open spec fn evaluation(&self, prior: SlotView, style_override: Option<Styles>, now: u64) -> Result<
        SlotView,
        ElementError,
    > {
        Ok(
            SlotView {
                content: Seq::empty(),
                style: resolved_style(Styles::plain(), style_override),
                ..prior
            },
        )
    }

    fn tick(&self, prior: &Slot, style_override: Option<Styles>, now: u64) -> (r: Result<
        Slot,
        ElementError,
    >) {
        Ok(
            Slot {
                content: String::new(),
                style: resolve_style(Styles::new(), style_override),
                numeric: prior.numeric,
                timer: prior.timer,
                stopped: prior.stopped,
                progress: prior.progress,
            },
        )
    }
}

impl Element for String {
    open spec fn evaluation(&self, prior: SlotView, style_override: Option<Styles>, now: u64) -> Result<
        SlotView,
        ElementError,
    > {
        Ok(with_content(prior, self@, style_override))
    }

    fn tick(&self, prior: &Slot, style_override: Option<Styles>, now: u64) -> (r: Result<
        Slot,
        ElementError,
    >) {
        Ok(replace_content(prior, self.clone(), style_override))
    }
}

impl Element for &str {
    open spec fn evaluation(&self, prior: SlotView, style_override: Option<Styles>, now: u64) -> Result<
        SlotView,
        ElementError,
    > {
        Ok(with_content(prior, self@, style_override))
    }

    fn tick(&self, prior: &Slot, style_override: Option<Styles>, now: u64) -> (r: Result<
        Slot,
        ElementError,
    >) {
        Ok(replace_content(prior, String::from_str(self), style_override))
    }
}

} // verus!
