//! Repainting in place: the control sequences that take the cursor back to
//! where the previous frame began and clear what it left, followed by the
//! new frame.

use vstd::prelude::*;
use vstd::string::StringExecFns;
use crossterm::cursor::MoveUp;
use crossterm::style::Print;
use crossterm::terminal::{Clear, ClearType};
use crossterm::Command;
use crate::digits::decimal;

verus! {

/// The control sequence introducer: the escape character and `[`.
pub open spec fn csi() -> Seq<char> {
    seq!['\u{1b}', '[']
}

/// The sequence that moves the cursor `lines` rows up.
pub open spec fn move_up_text(lines: u16) -> Seq<char> {
    csi() + decimal(lines as nat) + seq!['A']
}

/// The sequence that clears the screen from the cursor down.
pub open spec fn clear_below_text() -> Seq<char> {
    csi() + seq!['J']
}

/// The sequences that move the cursor `lines` rows up, in steps that the
/// terminal command can hold.
pub open spec fn move_ups(lines: nat) -> Seq<char>
    decreases lines,
{
    if lines == 0 {
        Seq::empty()
    } else if lines <= u16::MAX {
        move_up_text(lines as u16)
    } else {
        move_up_text(u16::MAX) + move_ups((lines - u16::MAX) as nat)
    }
}

/// What goes to the terminal for one frame. Where a previous frame of
/// `last_line_count` lines stands on the screen, the cursor first moves up
/// by that many rows and the screen is cleared from there down; the first
/// frame is just printed.
pub open spec fn redraw_text(last_line_count: nat, frame: Seq<char>) -> Seq<char> {
    if last_line_count == 0 {
        frame
    } else {
        move_ups(last_line_count) + clear_below_text() + frame
    }
}

/// How many line feeds a text holds.
pub open spec fn line_feeds(text: Seq<char>) -> nat
    decreases text.len(),
{
    if text.len() == 0 {
        0
    } else {
        line_feeds(text.drop_last()) + if text.last() == '\n' {
            1nat
        } else {
            0nat
        }
    }
}

/// How many lines a text has: one for each line feed, and one more for what
/// follows the last line feed, unless nothing follows it.
pub open spec fn line_count(text: Seq<char>) -> nat {
    line_feeds(text) + if text.len() > 0 && text.last() != '\n' {
        1nat
    } else {
        0nat
    }
}

/// Calls `Command::write_ansi` on crossterm's `MoveUp`, which writes the
/// introducer, the number of rows in decimal and `A`.
#[verifier::external_body]
fn move_up_sequence(lines: u16) -> (text: String)
    ensures
        text@ == move_up_text(lines),
{
    let mut text = String::new();
    let _ = MoveUp(lines).write_ansi(&mut text);
    text
}

/// Calls `Command::write_ansi` on crossterm's `Clear` for the part of the
/// screen from the cursor down, which writes the introducer and `J`.
#[verifier::external_body]
fn clear_below_sequence() -> (text: String)
    ensures
        text@ == clear_below_text(),
{
    let mut text = String::new();
    let _ = Clear(ClearType::FromCursorDown).write_ansi(&mut text);
    text
}

/// Calls `Command::write_ansi` on crossterm's `Print`, which writes the text
/// as it is.
#[verifier::external_body]
fn print_sequence(frame: &str) -> (text: String)
    ensures
        text@ == frame@,
{
    let mut text = String::new();
    let _ = Print(frame).write_ansi(&mut text);
    text
}

/// Counts the lines of a text.
pub fn count_lines(text: &str) -> (count: usize)
    ensures
        count == line_count(text@),
{
    let total = text.unicode_len();
    let mut feeds: usize = 0;
    let mut open_line = false;
    proof {
        broadcast use vstd::string::group_string_axioms;

        assert(text@.take(0) =~= Seq::<char>::empty());
    }
    for c in it: text.chars()
        invariant
            it.seq() == text@,
            total == text@.len(),
            feeds <= it.index(),
            open_line ==> feeds < it.index(),
            feeds == line_feeds(text@.take(it.index() as int)),
            open_line == (it.index() > 0 && text@[it.index() - 1] != '\n'),
    {
        proof {
            let seen = text@.take(it.index() + 1);
            assert(seen.drop_last() =~= text@.take(it.index() as int));
            assert(seen.last() == c);
        }
        if c == '\n' {
            feeds += 1;
            open_line = false;
        } else {
            open_line = true;
        }
    }
    proof {
        assert(text@.take(text@.len() as int) =~= text@);
    }
    if open_line {
        feeds + 1
    } else {
        feeds
    }
}

/// The control sequences and the text that repaint the screen with `frame`,
/// where the previous frame had `last_line_count` lines.
pub fn redraw_sequence(last_line_count: usize, frame: &str) -> (text: String)
    ensures
        text@ == redraw_text(last_line_count as nat, frame@),
{
    let mut text = String::new();
    if last_line_count > 0 {
        let mut left = last_line_count;
        while left > 65535
            invariant
                left > 0,
                text@ + move_ups(left as nat) == move_ups(last_line_count as nat),
            decreases left,
        {
            let step = move_up_sequence(65535);
            let ghost before = text@;
            text.append(step.as_str());
            left = left - 65535;
            assert((before + move_up_text(65535)) + move_ups(left as nat) =~= before + (move_up_text(
                65535,
            ) + move_ups(left as nat)));
        }
        let step = move_up_sequence(left as u16);
        text.append(step.as_str());
        let clear = clear_below_sequence();
        text.append(clear.as_str());
    }
    let print = print_sequence(frame);
    text.append(print.as_str());
    proof {
        if last_line_count == 0 {
            assert(text@ =~= frame@);
        }
    }
    text
}

} // verus!
