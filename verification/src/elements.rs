//! Elements: the values that can be put at a path. An element is evaluated
//! against the state of the node it is put at and gives the node's new
//! state: the text to display, the style, and what later updates consult.

pub mod boolean;
pub mod color;
pub mod content;
pub mod decimal;
pub mod number;
pub mod prepared;
pub mod progress;
pub mod size;
pub mod text;
pub mod timer;

use vstd::prelude::*;
use crate::slot::{ElementError, Slot, SlotView};
use crate::style::Styles;

verus! {

/// The outcome of an evaluation as a mathematical value.
pub open spec fn outcome(r: Result<Slot, ElementError>) -> Result<SlotView, ElementError> {
    match r {
        Ok(slot) => Ok(slot@),
        Err(e) => Err(e),
    }
}

/// A value that can be put at a path.
pub trait Element {
    /// The state of a node after this element was evaluated at it: `prior`
    /// is the node's state before, `style_override` the style that a
    /// decorator around the element imposes, `now` the time on the
    /// dashboard's clock, in nanoseconds.
    spec fn evaluation(&self, prior: SlotView, style_override: Option<Styles>, now: u64) -> Result<
        SlotView,
        ElementError,
    >;

    /// Evaluates the element at a node that already holds a value.
    fn tick(&self, prior: &Slot, style_override: Option<Styles>, now: u64) -> (r: Result<
        Slot,
        ElementError,
    >)
        ensures
            outcome(r) == self.evaluation(prior@, style_override, now),
    ;

    /// Evaluates the element at a node that holds no value yet.
    fn spawn(&self, style_override: Option<Styles>, now: u64) -> (r: Result<Slot, ElementError>)
        ensures
            outcome(r) == self.evaluation(SlotView::empty(), style_override, now),
    {
        self.tick(&Slot::new(), style_override, now)
    }
}

} // verus!
