//! The built-in kinds of content as one type, for values of different kinds
//! that are to be held together.

use vstd::prelude::*;
use crate::elements::number::{Integer, IntegerUnit};
use crate::elements::progress::Progress;
use crate::elements::size::{evaluate_size, size_evaluation, GB, KB, MB, PB, TB};
use crate::elements::text::{replace_content, with_content};
use crate::elements::timer::{Timer, Truncate};
use crate::elements::Element;
use crate::slot::{ElementError, Slot, SlotView};
use crate::style::Styles;

verus! {

/// The content to display.
#[derive(Debug)]
pub enum Content {
    /// Display text.
    Text(String),
    /// Display a stopwatch.
    Stopwatch(Truncate),
    /// Display integer.
    Integer(u64),
    /// Display integer with a specified unit.
    IntegerUnit(u64, String),
    /// Display bytes.
    Bytes(u64),
    /// Display kilobytes.
    Kilobytes(u64),
    /// Display megabytes.
    Megabytes(u64),
    /// Display gigabytes.
    Gigabytes(u64),
    /// Display terabytes.
    Terabytes(u64),
    /// Display petabytes.
    Petabytes(u64),
    /// Display a progress bar.
    Progress {
        /// The current progress value.
        current: u64,
        /// The maximum progress value.
        maximum: u64,
        /// Whether to show the percentage of progress.
        show_percent: bool,
        /// Whether to show the current and maximum values.
        show_values: bool,
        /// Whether to show the average rate of progress.
        show_rate: bool,
    },
}

impl Element for Content {
    /// Each kind is evaluated as the element of that kind is.
    open spec fn evaluation(&self, prior: SlotView, style_override: Option<Styles>, now: u64) -> Result<
        SlotView,
        ElementError,
    > {
        match *self {
            Content::Text(text) => Ok(with_content(prior, text@, style_override)),
            Content::Stopwatch(truncate) => Timer(truncate).evaluation(prior, style_override, now),
            Content::Integer(value) => Integer(value).evaluation(prior, style_override, now),
            Content::IntegerUnit(value, unit) => IntegerUnit(value, unit).evaluation(
                prior,
                style_override,
                now,
            ),
            Content::Bytes(count) => size_evaluation(prior, count, 1, style_override),
            Content::Kilobytes(count) => size_evaluation(prior, count, KB, style_override),
            Content::Megabytes(count) => size_evaluation(prior, count, MB, style_override),
            Content::Gigabytes(count) => size_evaluation(prior, count, GB, style_override),
            Content::Terabytes(count) => size_evaluation(prior, count, TB, style_override),
            Content::Petabytes(count) => size_evaluation(prior, count, PB, style_override),
            Content::Progress { current, maximum, show_percent, show_values, show_rate } => (Progress {
                current,
                maximum,
                show_percent,
                show_values,
                show_rate,
            }).evaluation(prior, style_override, now),
        }
    }

    fn tick(&self, prior: &Slot, style_override: Option<Styles>, now: u64) -> (r: Result<
        Slot,
        ElementError,
    >) {
        match self {
            Content::Text(text) => Ok(replace_content(prior, text.clone(), style_override)),
            Content::Stopwatch(truncate) => Timer(*truncate).tick(prior, style_override, now),
            Content::Integer(value) => Integer(*value).tick(prior, style_override, now),
            Content::IntegerUnit(value, unit) => IntegerUnit(*value, unit.clone()).tick(
                prior,
                style_override,
                now,
            ),
            Content::Bytes(count) => evaluate_size(prior, *count, 1, style_override),
            Content::Kilobytes(count) => evaluate_size(prior, *count, KB, style_override),
            Content::Megabytes(count) => evaluate_size(prior, *count, MB, style_override),
            Content::Gigabytes(count) => evaluate_size(prior, *count, GB, style_override),
            Content::Terabytes(count) => evaluate_size(prior, *count, TB, style_override),
            Content::Petabytes(count) => evaluate_size(prior, *count, PB, style_override),
            Content::Progress { current, maximum, show_percent, show_values, show_rate } => (Progress {
                current: *current,
                maximum: *maximum,
                show_percent: *show_percent,
                show_values: *show_values,
                show_rate: *show_rate,
            }).tick(prior, style_override, now),
        }
    }
}

} // verus!
