//! Progress bars.

use vstd::prelude::*;
use vstd::string::StringExecFns;
use crate::digits::{decimal, digit_char, push_decimal};
use crate::elements::number::{grouped, IntegerLike};
use crate::elements::timer::{elapsed_between, time_between};
use crate::elements::Element;
use crate::slot::{ElementError, ProgressState, Slot, SlotView, TimeComponent};
use crate::strings::{push_repeated, repeated};
use crate::style::{resolve_style, resolved_style, Styles};

verus! {

/// How far a task has come, drawn as a bar.
#[derive(Debug, Clone, Copy, PartialEq, Eq, Structural)]
pub struct Progress {
    /// The current progress value.
    pub current: u64,
    /// The maximum progress value.
    pub maximum: u64,
    /// Whether to show the percentage of progress.
    pub show_percent: bool,
    /// Whether to show the current and maximum values.
    pub show_values: bool,
    /// Whether to show the average rate of progress.
    pub show_rate: bool,
}

/// The number of cells of a bar.
pub const BAR_WIDTH: usize = 20;

/// How many cells of the bar are filled: the share of `current` in
/// `maximum`, rounded down to whole cells; none of an empty task, and all
/// once the maximum is reached.
pub open spec fn filled_cells(current: u64, maximum: u64) -> nat {
    if maximum == 0 {
        0
    } else if current >= maximum {
        BAR_WIDTH as nat
    } else {
        ((current * BAR_WIDTH) / (maximum as int)) as nat
    }
}

/// The percentage of `current` in `maximum` in tenths of a percent, rounded
/// to the nearest; zero for an empty task.
pub open spec fn percent_tenths(current: u64, maximum: u64) -> nat {
    if maximum == 0 {
        0
    } else {
        ((2000 * current + maximum) / (2 * maximum)) as nat
    }
}

/// The progress per second in tenths, rounded to the nearest, where `gain`
/// was made in `nanos` nanoseconds; zero where no time has passed.
pub open spec fn rate_tenths(gain: u64, nanos: u64) -> nat {
    if nanos == 0 {
        0
    } else {
        ((2 * gain * 10_000_000_000 + nanos) / (2 * nanos)) as nat
    }
}

/// A number of tenths with one digit after the point.
pub open spec fn one_decimal(tenths: nat) -> Seq<char> {
    decimal(tenths / 10) + seq!['.', digit_char(tenths % 10)]
}

/// The start of the rate measurement and its baseline after one more value
/// was seen. A bar that shows no rate leaves them alone. A first value, or
/// one below the last, starts the measurement from that value.
pub open spec fn tracking(prior: SlotView, current: u64, show_rate: bool, now: u64) -> (
    Option<TimeComponent>,
    Option<ProgressState>,
) {
    if !show_rate {
        (prior.timer, prior.progress)
    } else {
        match prior.progress {
            None => (
                match prior.timer {
                    Some(t) => Some(t),
                    None => Some(TimeComponent(now)),
                },
                Some(ProgressState { initial_value: current, last_value: current }),
            ),
            Some(state) => if current < state.last_value {
                (
                    Some(TimeComponent(now)),
                    Some(ProgressState { initial_value: current, last_value: current }),
                )
            } else {
                (
                    prior.timer,
                    Some(ProgressState { initial_value: state.initial_value, last_value: current }),
                )
            },
        }
    }
}

/// The rate that a bar shows, in tenths per second.
pub open spec fn shown_rate(
    timer: Option<TimeComponent>,
    state: Option<ProgressState>,
    current: u64,
    now: u64,
) -> nat {
    match (timer, state) {
        (Some(t), Some(s)) => if current >= s.initial_value {
            rate_tenths((current - s.initial_value) as u64, elapsed_between(t.0, now))
        } else {
            0
        },
        _ => 0,
    }
}

/// The cells of a bar, `filled` of them filled.
pub open spec fn cells_text(filled: nat) -> Seq<char> {
    repeated('━', filled) + repeated('┄', (BAR_WIDTH - filled) as nat)
}

/// The percentage as it follows the bar.
pub open spec fn percent_text(current: u64, maximum: u64) -> Seq<char> {
    seq![' '] + one_decimal(percent_tenths(current, maximum)) + seq!['%']
}

/// The two values as they follow the bar.
pub open spec fn values_text(current: u64, maximum: u64) -> Seq<char> {
    seq![' ', '('] + grouped(current as int) + seq![' ', '/', ' '] + grouped(maximum as int)
        + seq![')']
}

/// The rate as it follows the bar.
pub open spec fn rate_text(tenths: nat) -> Seq<char> {
    seq![' '] + one_decimal(tenths) + seq!['/', 's']
}

/// A part of the bar's text that is shown only where it is asked for.
pub open spec fn shown(wanted: bool, text: Seq<char>) -> Seq<char> {
    if wanted {
        text
    } else {
        Seq::empty()
    }
}

impl Progress {
    /// The text of the bar: the filled cells and the empty ones, then, as
    /// far as they are asked for, the percentage, the two values and the
    /// rate.
    pub open spec fn bar_text(
        self,
        timer: Option<TimeComponent>,
        state: Option<ProgressState>,
        now: u64,
    ) -> Seq<char> {
        cells_text(filled_cells(self.current, self.maximum)) + shown(
            self.show_percent,
            percent_text(self.current, self.maximum),
        ) + shown(self.show_values, values_text(self.current, self.maximum)) + shown(
            self.show_rate,
            rate_text(shown_rate(timer, state, self.current, now)),
        )
    }

    /// Draws the bar.
    pub fn render_bar(
        &self,
        timer: Option<TimeComponent>,
        state: Option<ProgressState>,
        now: u64,
    ) -> (bar: String)
        ensures
            bar@ == self.bar_text(timer, state, now),
    {
        let filled = count_filled(self.current, self.maximum);
        let mut bar = String::new();
        push_repeated(&mut bar, '━', filled);
        push_repeated(&mut bar, '┄', BAR_WIDTH - filled);
        assert(bar@ =~= cells_text(filled as nat));
        let ghost cells = bar@;
        if self.show_percent {
            push_percent(&mut bar, self.current, self.maximum);
        }
        assert(bar@ =~= cells + shown(self.show_percent, percent_text(self.current, self.maximum)));
        let ghost with_percent = bar@;
        if self.show_values {
            push_values(&mut bar, self.current, self.maximum);
        }
        assert(bar@ =~= with_percent + shown(
            self.show_values,
            values_text(self.current, self.maximum),
        ));
        let ghost with_values = bar@;
        if self.show_rate {
            let rate = match (timer, state) {
                (Some(t), Some(s)) => if self.current >= s.initial_value {
                    count_rate_tenths(self.current - s.initial_value, time_between(t.0, now))
                } else {
                    0
                },
                _ => 0,
            };
            push_rate(&mut bar, rate);
        }
        assert(bar@ =~= with_values + shown(
            self.show_rate,
            rate_text(shown_rate(timer, state, self.current, now)),
        ));
        bar
    }
}

/// Appends the percentage.
fn push_percent(text: &mut String, current: u64, maximum: u64)
    ensures
        final(text)@ == old(text)@ + percent_text(current, maximum),
{
    text.push(' ');
    push_one_decimal(text, count_percent_tenths(current, maximum));
    text.push('%');
    assert(text@ =~= old(text)@ + percent_text(current, maximum));
}

/// Appends the two values.
fn push_values(text: &mut String, current: u64, maximum: u64)
    ensures
        final(text)@ == old(text)@ + values_text(current, maximum),
{
    text.push(' ');
    text.push('(');
    text.append(current.formatted().as_str());
    text.push(' ');
    text.push('/');
    text.push(' ');
    text.append(maximum.formatted().as_str());
    text.push(')');
    assert(text@ =~= old(text)@ + values_text(current, maximum));
}

/// Appends the rate.
fn push_rate(text: &mut String, tenths: u128)
    ensures
        final(text)@ == old(text)@ + rate_text(tenths as nat),
{
    text.push(' ');
    push_one_decimal(text, tenths);
    text.push('/');
    text.push('s');
    assert(text@ =~= old(text)@ + rate_text(tenths as nat));
}

/// Appends a number of tenths with one digit after the point.
fn push_one_decimal(text: &mut String, tenths: u128)
    ensures
        final(text)@ == old(text)@ + one_decimal(tenths as nat),
{
    push_decimal(text, tenths / 10);
    text.push('.');
    let digit: u8 = (tenths % 10) as u8;
    text.push((48 + digit) as char);
    assert(text@ =~= old(text)@ + one_decimal(tenths as nat));
}

/// Counts the filled cells of a bar.
pub fn count_filled(current: u64, maximum: u64) -> (filled: usize)
    ensures
        filled == filled_cells(current, maximum),
        filled <= BAR_WIDTH,
{
    if maximum == 0 {
        0
    } else if current >= maximum {
        BAR_WIDTH
    } else {
        let scaled: u128 = current as u128 * 20;
        let cells: u128 = scaled / (maximum as u128);
        assert(cells < 20) by (nonlinear_arith)
            requires
                cells == scaled / (maximum as u128),
                scaled == current * 20,
                current < maximum,
        ;
        cells as usize
    }
}

/// Computes the percentage in tenths of a percent.
pub fn count_percent_tenths(current: u64, maximum: u64) -> (tenths: u128)
    ensures
        tenths == percent_tenths(current, maximum),
{
    if maximum == 0 {
        0
    } else {
        (2000 * (current as u128) + maximum as u128) / (2 * (maximum as u128))
    }
}

/// Computes the progress per second in tenths.
pub fn count_rate_tenths(gain: u64, nanos: u64) -> (tenths: u128)
    ensures
        tenths == rate_tenths(gain, nanos),
{
    if nanos == 0 {
        0
    } else {
        (2 * (gain as u128) * 10_000_000_000 + nanos as u128) / (2 * (nanos as u128))
    }
}

impl Element for Progress {
    /// The rate measurement takes note of the value, and the node's text is
    /// the bar.
    open spec fn evaluation(&self, prior: SlotView, style_override: Option<Styles>, now: u64) -> Result<
        SlotView,
        ElementError,
    > {
        let (timer, state) = tracking(prior, self.current, self.show_rate, now);
        Ok(
            SlotView {
                content: self.bar_text(timer, state, now),
                style: resolved_style(prior.style, style_override),
                timer,
                progress: state,
                ..prior
            },
        )
    }

    fn tick(&self, prior: &Slot, style_override: Option<Styles>, now: u64) -> (r: Result<
        Slot,
        ElementError,
    >) {
        let fresh = Some(ProgressState { initial_value: self.current, last_value: self.current });
        let (timer, state) = if !self.show_rate {
            (prior.timer, prior.progress)
        } else {
            match prior.progress {
                None => (
                    match prior.timer {
                        Some(t) => Some(t),
                        None => Some(TimeComponent(now)),
                    },
                    fresh,
                ),
                Some(state) => if self.current < state.last_value {
                    (Some(TimeComponent(now)), fresh)
                } else {
                    (
                        prior.timer,
                        Some(
                            ProgressState {
                                initial_value: state.initial_value,
                                last_value: self.current,
                            },
                        ),
                    )
                },
            }
        };
        Ok(
            Slot {
                content: self.render_bar(timer, state, now),
                style: resolve_style(prior.style, style_override),
                numeric: prior.numeric,
                timer,
                stopped: prior.stopped,
                progress: state,
            },
        )
    }
}

} // verus!
