//! What a node keeps of the value that was put at its path: the text to
//! display, its style, and the state that later updates consult.

use vstd::prelude::*;
use crate::style::Styles;

verus! {

/// The last number stored at a node, tagged by width and signedness, so that
/// a later delta can be applied to it. Decimals are kept as their IEEE 754
/// bit patterns.
#[derive(Debug, Clone, Copy, PartialEq, Eq, Structural)]
pub enum NumericValue {
    I8(i8),
    I16(i16),
    I32(i32),
    I64(i64),
    I128(i128),
    Isize(isize),
    U8(u8),
    U16(u16),
    U32(u32),
    U64(u64),
    U128(u128),
    Usize(usize),
    F32(u32),
    F64(u64),
}

/// The instant a timer or a rate measurement started, in nanoseconds on the
/// dashboard's clock.
#[derive(Debug, Clone, Copy, PartialEq, Eq, Structural)]
pub struct TimeComponent(pub u64);

/// A timer that was ended, with the time it had run, in nanoseconds.
#[derive(Debug, Clone, Copy, PartialEq, Eq, Structural)]
pub struct StoppedTimer {
    pub elapsed: u64,
}

/// The baseline of a progress bar's rate: the value at which measuring
/// started and the value seen last.
#[derive(Debug, Clone, Copy, PartialEq, Eq, Structural)]
pub struct ProgressState {
    pub initial_value: u64,
    pub last_value: u64,
}

/// Why an element could not be evaluated.
#[derive(Debug, Clone, Copy, PartialEq, Eq, Structural)]
pub enum ElementError {
    /// A subtraction, multiplication or division found no number at the node.
    MissingValue,
    /// The number at the node has another width or signedness than the delta.
    ContextMismatch,
    /// The result does not fit the number's type.
    Overflow,
    /// A division by zero.
    DivisionByZero,
}

/// The state of one node that holds a value.
#[derive(Debug)]
pub struct Slot {
    pub content: String,
    pub style: Styles,
    pub numeric: Option<NumericValue>,
    pub timer: Option<TimeComponent>,
    pub stopped: Option<StoppedTimer>,
    pub progress: Option<ProgressState>,
}

/// A `Slot` as a mathematical value.
pub struct SlotView {
    pub content: Seq<char>,
    pub style: Styles,
    pub numeric: Option<NumericValue>,
    pub timer: Option<TimeComponent>,
    pub stopped: Option<StoppedTimer>,
    pub progress: Option<ProgressState>,
}

impl SlotView {
    /// The state of a node at which nothing was evaluated yet.
    pub open spec fn empty() -> SlotView {
        SlotView {
            content: Seq::empty(),
            style: Styles::plain(),
            numeric: None,
            timer: None,
            stopped: None,
            progress: None,
        }
    }
}

impl View for Slot {
    type V = SlotView;

    open spec fn view(&self) -> SlotView {
        SlotView {
            content: self.content@,
            style: self.style,
            numeric: self.numeric,
            timer: self.timer,
            stopped: self.stopped,
            progress: self.progress,
        }
    }
}

impl Slot {
    /// The state of a node at which nothing was evaluated yet.
    pub fn new() -> (s: Slot)
        ensures
            s@ == SlotView::empty(),
    {
        Slot {
            content: String::new(),
            style: Styles::new(),
            numeric: None,
            timer: None,
            stopped: None,
            progress: None,
        }
    }
}

impl Clone for Slot {
    fn clone(&self) -> (s: Slot)
        ensures
            s@ == self@,
    {
        Slot {
            content: self.content.clone(),
            style: self.style,
            numeric: self.numeric,
            timer: self.timer,
            stopped: self.stopped,
            progress: self.progress,
        }
    }
}

} // verus!
