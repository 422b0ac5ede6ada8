//! Amounts of data, displayed with the unit that suits their magnitude.

use vstd::prelude::*;
use bytesize::ByteSize;
use crate::elements::text::{replace_content, with_content};
use crate::elements::Element;
use crate::slot::{ElementError, Slot, SlotView};
use crate::style::Styles;

verus! {

/// An amount of data in bytes.
#[derive(Debug)]
pub struct Bytes(pub u64);

/// An amount of data in units of 1000 bytes.
#[derive(Debug)]
pub struct Kilobytes(pub u64);

/// An amount of data in units of 1000 kilobytes.
#[derive(Debug)]
pub struct Megabytes(pub u64);

/// An amount of data in units of 1000 megabytes.
#[derive(Debug)]
pub struct Gigabytes(pub u64);

/// An amount of data in units of 1000 gigabytes.
#[derive(Debug)]
pub struct Terabytes(pub u64);

/// An amount of data in units of 1000 terabytes.
#[derive(Debug)]
pub struct Petabytes(pub u64);

/// Number of bytes in 1 kilobyte.
pub const KB: u64 = 1_000;

/// Number of bytes in 1 megabyte.
pub const MB: u64 = 1_000_000;

/// Number of bytes in 1 gigabyte.
pub const GB: u64 = 1_000_000_000;

/// Number of bytes in 1 terabyte.
pub const TB: u64 = 1_000_000_000_000;

/// Number of bytes in 1 petabyte.
pub const PB: u64 = 1_000_000_000_000_000;

/// The text that `bytesize` displays a number of bytes as.
pub uninterp spec fn byte_size_text(bytes: u64) -> Seq<char>;

/// Calls `ByteSize::b` and the `Display` of what it returns.
#[verifier::external_body]
fn byte_size(bytes: u64) -> (text: String)
    ensures
        text@ == byte_size_text(bytes),
{
    ByteSize::b(bytes).to_string()
}

/// The state of a node after `count` units of `unit` bytes were put at it.
/// An amount that no `u64` holds in bytes is refused.
pub open spec fn size_evaluation(
    prior: SlotView,
    count: u64,
    unit: u64,
    style_override: Option<Styles>,
) -> Result<SlotView, ElementError> {
    if count * unit > u64::MAX {
        Err(ElementError::Overflow)
    } else {
        Ok(with_content(prior, byte_size_text((count * unit) as u64), style_override))
    }
}

/// Evaluates an amount of `count` units of `unit` bytes.
pub fn evaluate_size(prior: &Slot, count: u64, unit: u64, style_override: Option<Styles>) -> (r: Result<
    Slot,
    ElementError,
>)
    ensures
        crate::elements::outcome(r) == size_evaluation(prior@, count, unit, style_override),
{
    match count.checked_mul(unit) {
        Some(bytes) => Ok(replace_content(prior, byte_size(bytes), style_override)),
        None => Err(ElementError::Overflow),
    }
}

impl Element for Bytes {
    open spec fn evaluation(&self, prior: SlotView, style_override: Option<Styles>, now: u64) -> Result<
        SlotView,
        ElementError,
    > {
        size_evaluation(prior, self.0, 1, style_override)
    }

    fn tick(&self, prior: &Slot, style_override: Option<Styles>, now: u64) -> (r: Result<
        Slot,
        ElementError,
    >) {
        evaluate_size(prior, self.0, 1, style_override)
    }
}

impl Element for Kilobytes {
    open spec fn evaluation(&self, prior: SlotView, style_override: Option<Styles>, now: u64) -> Result<
        SlotView,
        ElementError,
    > {
        size_evaluation(prior, self.0, KB, style_override)
    }

    fn tick(&self, prior: &Slot, style_override: Option<Styles>, now: u64) -> (r: Result<
        Slot,
        ElementError,
    >) {
        evaluate_size(prior, self.0, KB, style_override)
    }
}

impl Element for Megabytes {
    open spec fn evaluation(&self, prior: SlotView, style_override: Option<Styles>, now: u64) -> Result<
        SlotView,
        ElementError,
    > {
        size_evaluation(prior, self.0, MB, style_override)
    }

    fn tick(&self, prior: &Slot, style_override: Option<Styles>, now: u64) -> (r: Result<
        Slot,
        ElementError,
    >) {
        evaluate_size(prior, self.0, MB, style_override)
    }
}

impl Element for Gigabytes {
    open spec fn evaluation(&self, prior: SlotView, style_override: Option<Styles>, now: u64) -> Result<
        SlotView,
        ElementError,
    > {
        size_evaluation(prior, self.0, GB, style_override)
    }

    fn tick(&self, prior: &Slot, style_override: Option<Styles>, now: u64) -> (r: Result<
        Slot,
        ElementError,
    >) {
        evaluate_size(prior, self.0, GB, style_override)
    }
}

impl Element for Terabytes {
    open spec fn evaluation(&self, prior: SlotView, style_override: Option<Styles>, now: u64) -> Result<
        SlotView,
        ElementError,
    > {
        size_evaluation(prior, self.0, TB, style_override)
    }

    fn tick(&self, prior: &Slot, style_override: Option<Styles>, now: u64) -> (r: Result<
        Slot,
        ElementError,
    >) {
        evaluate_size(prior, self.0, TB, style_override)
    }
}

impl Element for Petabytes {
    open spec fn evaluation(&self, prior: SlotView, style_override: Option<Styles>, now: u64) -> Result<
        SlotView,
        ElementError,
    > {
        size_evaluation(prior, self.0, PB, style_override)
    }

    fn tick(&self, prior: &Slot, style_override: Option<Styles>, now: u64) -> (r: Result<
        Slot,
        ElementError,
    >) {
        evaluate_size(prior, self.0, PB, style_override)
    }
}

} // verus!
