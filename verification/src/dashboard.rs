//! The dashboard: one tree of values and the number of lines of the frame
//! that was painted last.

use std::time::{Duration, Instant};
use vstd::prelude::*;
use vstd::string::StringExecFns;
use crate::console::{render_rows, table_text};
use crate::elements::Element;
use crate::agreement::lemma_ranges_agree_with_tree;
use crate::laws::lemma_round_trip;
use crate::forest::{
    distinct_names, forest_lookup, forest_pop, forest_put, pruned, resolves, TreeView,
};
use crate::ranges::{draw_range, flat_view, forest_flat, range_rows, FlatRow, FlatView};
use crate::path::{split_path, split_segments};
use crate::render::{
    forest_rows, lemma_rows_of_forest, rows_view, square_glyphs, tree_table, Glyphs, GlyphsView,
    Margin, RowView, TableRow,
};
use crate::slot::{ElementError, Slot, SlotView};
use crate::strings::{push_repeated, repeated, spaces};
use crate::terminal::{count_lines, line_count, redraw_sequence, redraw_text};
use crate::tree::PathTree;

verus! {

/// A point in time on the machine's monotonic clock.
#[verifier::external_type_specification]
#[verifier::external_body]
pub struct ExInstant(Instant);

/// `Instant::now` reads the clock: nothing is known of what it returns.
pub assume_specification[ std::time::Instant::now ]() -> Instant;

/// `Instant::elapsed` reads the clock: nothing is known of what it returns.
pub assume_specification[ std::time::Instant::elapsed ](start: &Instant) -> Duration;

/// `Duration::as_nanos` gives a duration in nanoseconds.
pub assume_specification[ std::time::Duration::as_nanos ](duration: &Duration) -> u128;

/// Where a frame is written to.
#[derive(Debug, Clone, Copy, PartialEq, Eq, Structural)]
pub enum Buffer {
    Stdout,
    Stderr,
}

/// The clock of a dashboard: when it started, and the time between the last
/// two frames, in nanoseconds.
#[derive(Debug, Clone, Copy)]
pub struct GlobalContext {
    pub start: Instant,
    pub delta: u64,
}

/// How a frame is laid out and where it goes.
#[derive(Debug, Clone, Copy, PartialEq, Eq, Structural)]
pub struct OutputOptions {
    /// Milliseconds between two frames of a dashboard that refreshes itself.
    pub refresh_rate: u16,
    pub margin: Margin,
    pub buffer: Buffer,
}

impl OutputOptions {
    /// A frame every 32 milliseconds on standard output, one blank line
    /// above and below it and three blank columns to its left.
    pub open spec fn standard() -> OutputOptions {
        OutputOptions {
            refresh_rate: 32,
            margin: Margin { top: 1, bottom: 1, left: 3 },
            buffer: Buffer::Stdout,
        }
    }
}

impl Default for OutputOptions {
    fn default() -> (o: OutputOptions)
        ensures
            o == OutputOptions::standard(),
    {
        OutputOptions {
            refresh_rate: 32,
            margin: Margin { top: 1, bottom: 1, left: 3 },
            buffer: Buffer::Stdout,
        }
    }
}

/// The frame of a forest drawn with `glyphs`: nothing at all for the empty
/// forest; else the table of its rows between the blank lines of the
/// margin.
pub open spec fn tree_frame_text(forest: Seq<TreeView>, glyphs: GlyphsView, margin: Margin) -> Seq<
    char,
> {
    if forest.len() == 0 {
        Seq::empty()
    } else {
        repeated('\n', margin.top as nat) + table_text(
            forest_rows(forest, margin.left as nat, glyphs),
        ) + repeated('\n', margin.bottom as nat)
    }
}

/// The frame of a dashboard's forest, which is drawn with the square glyphs.
pub open spec fn frame_text(forest: Seq<TreeView>, margin: Margin) -> Seq<char> {
    tree_frame_text(forest, square_glyphs(), margin)
}

/// The frame of a flat list of paths drawn with `glyphs`: nothing at all
/// where the list gives no row; else the table of its rows, each behind the
/// left margin, between the blank lines of the margin.
pub open spec fn list_frame_text(rows: Seq<FlatView>, glyphs: GlyphsView, margin: Margin) -> Seq<
    char,
> {
    let table = range_rows(rows, 0, rows.len() as int, 0, spaces(margin.left as nat), glyphs);
    if table.len() == 0 {
        Seq::empty()
    } else {
        repeated('\n', margin.top as nat) + table_text(table) + repeated(
            '\n',
            margin.bottom as nat,
        )
    }
}

/// The frame of a flat list of paths with their values, drawn with
/// `glyphs`. Paths that share their first segments are expected to follow
/// each other.
pub fn render_list(rows: &Vec<FlatRow>, glyphs: &Glyphs, margin: &Margin) -> (frame: String)
    ensures
        frame@ == list_frame_text(flat_view(rows@), glyphs@, *margin),
{
    let mut table: Vec<TableRow> = Vec::new();
    assert(rows_view(table@) =~= Seq::<RowView>::empty());
    let mut lead = String::new();
    push_repeated(&mut lead, ' ', margin.left);
    assert(lead@ =~= spaces(margin.left as nat));
    draw_range(rows, 0, rows.len(), 0, lead.as_str(), glyphs, &mut table);
    proof {
        let made = range_rows(
            flat_view(rows@),
            0,
            rows.len() as int,
            0,
            spaces(margin.left as nat),
            glyphs@,
        );
        assert(Seq::<RowView>::empty() + made =~= made);
    }
    if table.len() == 0 {
        return String::new();
    }
    let text = render_rows(&table);
    let mut frame = String::new();
    push_repeated(&mut frame, '\n', margin.top);
    frame.append(text.as_str());
    push_repeated(&mut frame, '\n', margin.bottom);
    assert(frame@ =~= list_frame_text(flat_view(rows@), glyphs@, *margin));
    frame
}

/// The frame of a tree's flat list is the frame of the tree, where both are
/// drawn with the same glyphs.
pub proof fn lemma_list_frame_is_frame(forest: Seq<TreeView>, glyphs: GlyphsView, margin: Margin)
    requires
        distinct_names(forest),
        pruned(forest),
    ensures
        list_frame_text(forest_flat(forest), glyphs, margin) == tree_frame_text(
            forest,
            glyphs,
            margin,
        ),
{
    lemma_ranges_agree_with_tree(forest, margin.left as nat, glyphs);
    if forest.len() > 0 {
        lemma_rows_of_forest(forest, margin.left as nat, glyphs);
    } else {
        assert(forest_rows(forest, margin.left as nat, glyphs).len() == 0);
    }
}

/// Putting a value into an empty dashboard and popping it again leaves
/// nothing to paint: the frame is empty, whatever the margin.
pub proof fn lemma_round_trip_frame(path: Seq<Seq<char>>, slot: SlotView, margin: Margin)
    ensures
        frame_text(forest_pop(forest_put(Seq::empty(), path, slot), path), margin)
            == Seq::<char>::empty(),
{
    lemma_round_trip(path, slot);
}

/// The state that an element is evaluated against at `path`: that of the
/// node, where the path leads to one that holds a value, else the empty one.
pub open spec fn prior_state(forest: Seq<TreeView>, segments: Seq<Seq<char>>) -> SlotView {
    match forest_lookup(forest, segments) {
        Some(slot) => slot,
        None => SlotView::empty(),
    }
}

/// The forest after `element` was put at `path` at the time `now`. A path
/// without segments changes nothing. Else the element is evaluated against
/// the state of the node at the path and what it gives is stored there;
/// where the element is refused, so is the put.
pub open spec fn put_result<E: Element>(
    forest: Seq<TreeView>,
    path: Seq<char>,
    element: E,
    now: u64,
) -> Result<Seq<TreeView>, ElementError> {
    let segments = split_segments(path);
    if segments.len() == 0 {
        Ok(forest)
    } else {
        match element.evaluation(prior_state(forest, segments), None, now) {
            Ok(slot) => Ok(forest_put(forest, segments, slot)),
            Err(e) => Err(e),
        }
    }
}

/// What a put at the time `now` leaves: the forest that `put_result` tells
/// and `Ok`, or the forest as it was and the error.
pub open spec fn put_leaves<E: Element>(
    before: Seq<TreeView>,
    path: Seq<char>,
    element: E,
    now: u64,
    after: Seq<TreeView>,
    r: Result<(), ElementError>,
) -> bool {
    match put_result(before, path, element, now) {
        Ok(forest) => r is Ok && after == forest,
        Err(e) => r == Err::<(), ElementError>(e) && after == before,
    }
}

/// A dashboard.
pub struct Nesti {
    tree: PathTree,
    last_line_count: usize,
    context: GlobalContext,
}

impl Nesti {
    /// The tree of the values that the dashboard holds.
    pub closed spec fn forest(&self) -> Seq<TreeView> {
        self.tree@
    }

    /// The number of lines of the frame that was painted last; zero before
    /// the first frame.
    pub closed spec fn painted_lines(&self) -> nat {
        self.last_line_count as nat
    }

    /// The dashboard's clock.
    pub closed spec fn clock(&self) -> GlobalContext {
        self.context
    }

    /// The dashboard's tree is well formed.
    pub closed spec fn wf(&self) -> bool {
        self.tree.wf()
    }

    /// In a well-formed dashboard no two siblings share a name, and no node
    /// is kept that has neither a value nor children.
    pub proof fn lemma_wf_forest(&self)
        requires
            self.wf(),
        ensures
            distinct_names(self.forest()),
            pruned(self.forest()),
    {
    }

    /// An empty dashboard of which no frame was painted. Its clock starts
    /// now, and no time lies between two frames yet.
    pub fn new() -> (nesti: Nesti)
        ensures
            nesti.wf(),
            nesti.forest() == Seq::<TreeView>::empty(),
            nesti.painted_lines() == 0,
            nesti.clock().delta == 0,
    {
        Nesti {
            tree: PathTree::new(),
            last_line_count: 0,
            context: GlobalContext { start: Instant::now(), delta: 0 },
        }
    }

    /// The time on the dashboard's clock, in nanoseconds since it started:
    /// what the machine's clock says has passed, as `clock_reading` holds
    /// it. Nothing is known of it beforehand.
    pub fn now(&self) -> u64 {
        clock_reading(self.context.start.elapsed().as_nanos())
    }

    /// Puts `element` at `path`, at the time that the dashboard's clock
    /// shows.
    pub fn put<E: Element>(&mut self, path: &str, element: E) -> (r: Result<(), ElementError>)
        requires
            old(self).wf(),
        ensures
            final(self).wf(),
            final(self).painted_lines() == old(self).painted_lines(),
            final(self).clock() == old(self).clock(),
            exists|now: u64| #[trigger]
                put_leaves(old(self).forest(), path@, element, now, final(self).forest(), r),
    {
        let now = self.now();
        let r = self.put_at(path, element, now);
        assert(put_leaves(old(self).forest(), path@, element, now, self.forest(), r));
        r
    }

    /// Puts `element` at `path`, at the time `now`. The nodes along the
    /// path that are missing are created; the element is evaluated against
    /// the state of the last one, and what it gives replaces that state.
    /// Where the element is refused, the dashboard stays as it is.
    pub fn put_at<E: Element>(&mut self, path: &str, element: E, now: u64) -> (r: Result<
        (),
        ElementError,
    >)
        requires
            old(self).wf(),
        ensures
            final(self).wf(),
            final(self).painted_lines() == old(self).painted_lines(),
            final(self).clock() == old(self).clock(),
            put_leaves(old(self).forest(), path@, element, now, final(self).forest(), r),
    {
        let segments = split_path(path);
        if segments.len() == 0 {
            return Ok(());
        }
        let evaluated = match self.tree.lookup(&segments) {
            Some(prior) => element.tick(prior, None, now),
            None => element.spawn(None, now),
        };
        match evaluated {
            Ok(slot) => {
                self.tree.put(&segments, slot);
                Ok(())
            },
            Err(e) => Err(e),
        }
    }

    /// Removes the value at `path`, and with it the nodes of the path that
    /// are left without value and without children. A path that leads to
    /// no node changes nothing.
    pub fn pop(&mut self, path: &str)
        requires
            old(self).wf(),
        ensures
            final(self).wf(),
            final(self).painted_lines() == old(self).painted_lines(),
            final(self).clock() == old(self).clock(),
            final(self).forest() == forest_pop(old(self).forest(), split_segments(path@)),
            !resolves(old(self).forest(), split_segments(path@)) ==> final(self).forest() == old(
                self,
            ).forest(),
    {
        let segments = split_path(path);
        self.tree.pop(&segments);
    }

    /// The state of the node at `path`, if the path leads to a node that
    /// holds a value.
    pub fn lookup(&self, path: &str) -> (r: Option<&Slot>)
        requires
            self.wf(),
        ensures
            match r {
                Some(slot) => forest_lookup(self.forest(), split_segments(path@)) == Some(slot@),
                None => forest_lookup(self.forest(), split_segments(path@)) is None,
            },
    {
        let segments = split_path(path);
        self.tree.lookup(&segments)
    }

    /// The frame of the dashboard as it stands.
    pub fn render(&self, margin: &Margin) -> (frame: String)
        requires
            self.wf(),
        ensures
            frame@ == frame_text(self.forest(), *margin),
    {
        if self.tree.is_empty() {
            return String::new();
        }
        let table = tree_table(&self.tree, margin);
        proof {
            lemma_rows_of_forest(self.tree@, margin.left as nat, square_glyphs());
        }
        let text = render_rows(&table);
        let mut frame = String::new();
        push_repeated(&mut frame, '\n', margin.top);
        frame.append(text.as_str());
        push_repeated(&mut frame, '\n', margin.bottom);
        assert(frame@ =~= frame_text(self.forest(), *margin));
        frame
    }

    /// What is to be written to the buffer that `opt` names, to paint the
    /// dashboard as it stands over the frame that was painted last, and
    /// the number of lines of the new frame. The dashboard stays as it is:
    /// `painted` takes note of the frame once it was written.
    pub fn repaint(&self, opt: &OutputOptions) -> (r: (String, usize))
        requires
            self.wf(),
        ensures
            r.0@ == redraw_text(self.painted_lines(), frame_text(self.forest(), opt.margin)),
            r.1 == line_count(frame_text(self.forest(), opt.margin)),
    {
        let frame = self.render(&opt.margin);
        let output = redraw_sequence(self.last_line_count, frame.as_str());
        (output, count_lines(frame.as_str()))
    }

    /// Takes note that a frame of `lines` lines was painted.
    pub fn painted(&mut self, lines: usize)
        requires
            old(self).wf(),
        ensures
            final(self).wf(),
            final(self).forest() == old(self).forest(),
            final(self).clock() == old(self).clock(),
            final(self).painted_lines() == lines,
    {
        self.last_line_count = lines;
    }

    /// What is to be written to the buffer that `opt` names, to paint the
    /// dashboard as it stands over the frame that was painted last. The
    /// dashboard takes note of the new frame's number of lines.
    pub fn write_to_buffer(&mut self, opt: &OutputOptions) -> (output: String)
        requires
            old(self).wf(),
        ensures
            final(self).wf(),
            final(self).forest() == old(self).forest(),
            final(self).clock() == old(self).clock(),
            output@ == redraw_text(
                old(self).painted_lines(),
                frame_text(old(self).forest(), opt.margin),
            ),
            final(self).painted_lines() == line_count(frame_text(old(self).forest(), opt.margin)),
    {
        let (output, lines) = self.repaint(opt);
        self.painted(lines);
        output
    }

    /// `write_to_buffer` with the standard options.
    pub fn flush(&mut self) -> (output: String)
        requires
            old(self).wf(),
        ensures
            final(self).wf(),
            final(self).forest() == old(self).forest(),
            final(self).clock() == old(self).clock(),
            output@ == redraw_text(
                old(self).painted_lines(),
                frame_text(old(self).forest(), OutputOptions::standard().margin),
            ),
            final(self).painted_lines() == line_count(
                frame_text(old(self).forest(), OutputOptions::standard().margin),
            ),
    {
        let opt = OutputOptions::default();
        self.write_to_buffer(&opt)
    }
}

impl Default for Nesti {
    fn default() -> (nesti: Nesti)
        ensures
            nesti.wf(),
            nesti.forest() == Seq::<TreeView>::empty(),
            nesti.painted_lines() == 0,
            nesti.clock().delta == 0,
    {
        Nesti::new()
    }
}

/// A span of time in nanoseconds as the dashboard's clock holds it: as it
/// is, where 64 bits hold it, else the longest span that they hold.
pub open spec fn reading_of(nanos: u128) -> u64 {
    if nanos > u64::MAX {
        u64::MAX
    } else {
        nanos as u64
    }
}

/// Turns a span of time in nanoseconds into a reading of the dashboard's
/// clock.
pub fn clock_reading(nanos: u128) -> (reading: u64)
    ensures
        reading == reading_of(nanos),
{
    if nanos > 0xffff_ffff_ffff_ffff {
        0xffff_ffff_ffff_ffff
    } else {
        nanos as u64
    }
}

} // verus!
