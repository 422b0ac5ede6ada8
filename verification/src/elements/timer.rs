//! Timers: the time since a node's timer started, truncated to a unit.

use vstd::prelude::*;
use humanize_duration::prelude::DurationExt;
use humanize_duration::Truncate as Precision;
use crate::elements::Element;
use crate::slot::{ElementError, Slot, SlotView, StoppedTimer, TimeComponent};
use crate::style::{resolve_style, resolved_style, Styles};

verus! {

/// The smallest unit that a duration is displayed with.
#[derive(Debug, Clone, Copy, PartialEq, Eq, Structural)]
pub enum Truncate {
    Nano,
    Micro,
    Millis,
    Second,
    Minute,
    Hour,
    Day,
    Month,
    Year,
}

impl Truncate {
    /// Position of the unit, counted from the smallest.
    pub open spec fn spec_code(self) -> u8 {
        match self {
            Truncate::Nano => 0,
            Truncate::Micro => 1,
            Truncate::Millis => 2,
            Truncate::Second => 3,
            Truncate::Minute => 4,
            Truncate::Hour => 5,
            Truncate::Day => 6,
            Truncate::Month => 7,
            Truncate::Year => 8,
        }
    }

    /// Position of the unit, counted from the smallest.
    #[verifier::when_used_as_spec(spec_code)]
    pub fn code(self) -> (c: u8)
        ensures
            c == self.spec_code(),
            c < 9,
    {
        match self {
            Truncate::Nano => 0,
            Truncate::Micro => 1,
            Truncate::Millis => 2,
            Truncate::Second => 3,
            Truncate::Minute => 4,
            Truncate::Hour => 5,
            Truncate::Day => 6,
            Truncate::Month => 7,
            Truncate::Year => 8,
        }
    }
}

/// A timer that runs from its first evaluation at a node.
#[derive(Debug)]
pub struct Timer(pub Truncate);

/// Ends the timer of a node.
#[derive(Debug)]
pub struct EndTimer;

/// The text that `humanize_duration` displays a duration of `nanos`
/// nanoseconds as, truncated to the unit at position `unit`.
pub uninterp spec fn humanized(nanos: u64, unit: u8) -> Seq<char>;

/// Calls `DurationExt::human` on a `std::time::Duration` of `nanos`
/// nanoseconds, and the `Display` of what it returns.
#[verifier::external_body]
fn humanize(nanos: u64, unit: u8) -> (text: String)
    requires
        unit < 9,
    ensures
        text@ == humanized(nanos, unit),
{
    let units = [Precision::Nano, Precision::Micro, Precision::Millis, Precision::Second,
        Precision::Minute, Precision::Hour, Precision::Day, Precision::Month, Precision::Year];
    std::time::Duration::from_nanos(nanos).human(units[unit as usize]).to_string()
}

/// The time from `start` to `now`; none where the clock went back.
pub open spec fn elapsed_between(start: u64, now: u64) -> u64 {
    if now >= start {
        (now - start) as u64
    } else {
        0
    }
}

/// The time from `start` to `now`.
pub fn time_between(start: u64, now: u64) -> (e: u64)
    ensures
        e == elapsed_between(start, now),
{
    if now >= start {
        now - start
    } else {
        0
    }
}

/// When the timer of a node started, once `Timer` was evaluated at it: now,
/// where the node had no timer or a stopped one; else when it did.
pub open spec fn timer_start(prior: SlotView, now: u64) -> u64 {
    if prior.stopped is Some {
        now
    } else {
        match prior.timer {
            Some(t) => t.0,
            None => now,
        }
    }
}

impl Element for Timer {
    /// A running timer keeps its start and shows the time since; a node
    /// without timer, or with a stopped one, starts one at `now`.
    open spec fn evaluation(&self, prior: SlotView, style_override: Option<Styles>, now: u64) -> Result<
        SlotView,
        ElementError,
    > {
        let start = timer_start(prior, now);
        Ok(
            SlotView {
                content: humanized(elapsed_between(start, now), self.0.spec_code()),
                style: resolved_style(prior.style, style_override),
                timer: Some(TimeComponent(start)),
                stopped: None,
                ..prior
            },
        )
    }

    fn tick(&self, prior: &Slot, style_override: Option<Styles>, now: u64) -> (r: Result<
        Slot,
        ElementError,
    >) {
        let start = if prior.stopped.is_some() {
            now
        } else {
            match prior.timer {
                Some(t) => t.0,
                None => now,
            }
        };
        Ok(
            Slot {
                content: humanize(time_between(start, now), self.0.code()),
                style: resolve_style(prior.style, style_override),
                numeric: prior.numeric,
                timer: Some(TimeComponent(start)),
                stopped: None,
                progress: prior.progress,
            },
        )
    }
}

impl Element for EndTimer {
    /// A running timer is stopped and the time it ran is kept; the text
    /// stays as it was last displayed. A node without running timer stays
    /// as it is.
    open spec fn evaluation(&self, prior: SlotView, style_override: Option<Styles>, now: u64) -> Result<
        SlotView,
        ElementError,
    > {
        match prior.timer {
            Some(t) => Ok(
                SlotView {
                    timer: None,
                    stopped: Some(StoppedTimer { elapsed: elapsed_between(t.0, now) }),
                    ..prior
                },
            ),
            None => Ok(prior),
        }
    }

    fn tick(&self, prior: &Slot, style_override: Option<Styles>, now: u64) -> (r: Result<
        Slot,
        ElementError,
    >) {
        match prior.timer {
            Some(t) => Ok(
                Slot {
                    content: prior.content.clone(),
                    style: prior.style,
                    numeric: prior.numeric,
                    timer: None,
                    stopped: Some(StoppedTimer { elapsed: time_between(t.0, now) }),
                    progress: prior.progress,
                },
            ),
            None => Ok(prior.clone()),
        }
    }
}

} // verus!
