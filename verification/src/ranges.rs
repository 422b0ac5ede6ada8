//! From a flat list of paths with their values to the rows of the table:
//! consecutive paths that share a segment at a depth make a group, which
//! gets one row and, below it, the rows of what goes deeper.

use vstd::prelude::*;
use crate::render::{
    column, connector, draw_label, extend_prefix, rounded_glyphs, rows_view, Glyphs, GlyphsView,
    RowView, TableRow,
};
use crate::style::Styles;
use crate::forest::TreeView;
use crate::tree::{path_view, PathTree};

verus! {

/// A path that holds a value, with the text of the value and its style.
#[derive(Debug)]
pub struct FlatRow {
    pub path: Vec<String>,
    pub content: String,
    pub style: Styles,
}

/// A `FlatRow` as a mathematical value.
pub struct FlatView {
    pub path: Seq<Seq<char>>,
    pub content: Seq<char>,
    pub style: Styles,
}

impl View for FlatRow {
    type V = FlatView;

    open spec fn view(&self) -> FlatView {
        FlatView { path: path_view(self.path@), content: self.content@, style: self.style }
    }
}

/// The rows of a list as mathematical values.
pub open spec fn flat_view(rows: Seq<FlatRow>) -> Seq<FlatView> {
    Seq::new(rows.len(), |i: int| rows[i]@)
}

/// The length of the longest path of the list.
pub open spec fn longest(rows: Seq<FlatView>) -> nat
    decreases rows.len(),
{
    if rows.len() == 0 {
        0
    } else if rows.last().path.len() > longest(rows.drop_last()) {
        rows.last().path.len()
    } else {
        longest(rows.drop_last())
    }
}

/// No path of the list is longer than the longest.
pub proof fn lemma_longest(rows: Seq<FlatView>, i: int)
    requires
        0 <= i < rows.len(),
    ensures
        rows[i].path.len() <= longest(rows),
    decreases rows.len(),
{
    if i < rows.len() - 1 {
        lemma_longest(rows.drop_last(), i);
    }
}

/// Whether the row `j` belongs to the group that the row `i` opens at
/// `depth`: it reaches that depth and has the same segments up to and at it.
pub open spec fn same_group(rows: Seq<FlatView>, i: int, j: int, depth: nat) -> bool {
    &&& rows[j].path.len() > depth
    &&& rows[j].path.take(depth as int) == rows[i].path.take(depth as int)
    &&& rows[j].path[depth as int] == rows[i].path[depth as int]
}

/// The end of the group that the row `i` opens: the first position from `j`
/// on, before `end`, whose row does not belong to it; `end` if all do.
pub open spec fn group_end(rows: Seq<FlatView>, i: int, j: int, end: int, depth: nat) -> int
    decreases end - j,
{
    if j >= end || !same_group(rows, i, j, depth) {
        j
    } else {
        group_end(rows, i, j + 1, end, depth)
    }
}

/// The first position from `k` on, before `end`, whose row reaches `depth`;
/// `end` if none does.
pub open spec fn next_reaching(rows: Seq<FlatView>, k: int, end: int, depth: nat) -> int
    decreases end - k,
{
    if k >= end || rows[k].path.len() > depth {
        k
    } else {
        next_reaching(rows, k + 1, end, depth)
    }
}

/// Whether the group of the row `i`, which ends at `j`, is the last below
/// its parent: no later row of the range reaches `depth`, or the next that
/// does has other segments above it.
pub open spec fn group_is_last(rows: Seq<FlatView>, i: int, j: int, end: int, depth: nat) -> bool {
    let k = next_reaching(rows, j, end, depth);
    k >= end || rows[k].path.take(depth as int) != rows[i].path.take(depth as int)
}

/// The first position from `at` on, before `j`, whose path ends at `depth`;
/// `j` if none does.
pub open spec fn first_ending(rows: Seq<FlatView>, at: int, j: int, depth: nat) -> int
    decreases j - at,
{
    if at >= j || rows[at].path.len() == depth + 1 {
        at
    } else {
        first_ending(rows, at + 1, j, depth)
    }
}

/// Whether a path from `at` on, before `j`, goes deeper than `depth`.
pub open spec fn any_deeper(rows: Seq<FlatView>, at: int, j: int, depth: nat) -> bool
    decreases j - at,
{
    at < j && (rows[at].path.len() > depth + 1 || any_deeper(rows, at + 1, j, depth))
}

/// What stands before the connectors of what goes deeper in a group: the
/// group's own prefix, with one more column but at the top level.
pub open spec fn deeper_prefix(
    prefix: Seq<char>,
    depth: nat,
    is_last: bool,
    glyphs: GlyphsView,
) -> Seq<char> {
    if depth == 0 {
        prefix
    } else {
        prefix + column(is_last, glyphs)
    }
}

/// The row of the group from `i` to `j`: the name is the group's segment
/// behind prefix and connector; the value is that of the first path that
/// ends with the segment, and the placeholder where the segment only leads
/// further.
pub open spec fn group_row(
    rows: Seq<FlatView>,
    i: int,
    j: int,
    depth: nat,
    is_last: bool,
    prefix: Seq<char>,
    glyphs: GlyphsView,
) -> RowView {
    let e = first_ending(rows, i, j, depth);
    RowView {
        label: prefix + connector(depth, is_last, glyphs) + rows[i].path[depth as int],
        value: if e < j {
            rows[e].content
        } else {
            Seq::empty()
        },
        fg: if e < j {
            rows[e].style.text_fg
        } else {
            glyphs.placeholder
        },
    }
}

/// A group ends behind the row that opens it and within the range.
pub proof fn lemma_group_end(rows: Seq<FlatView>, i: int, j: int, end: int, depth: nat)
    requires
        j <= end,
    ensures
        j <= group_end(rows, i, j, end, depth) <= end,
    decreases end - j,
{
    if j < end && same_group(rows, i, j, depth) {
        lemma_group_end(rows, i, j + 1, end, depth);
    }
}

/// Where a path goes deeper than `depth`, the longest path does.
pub proof fn lemma_deeper_is_shorter(rows: Seq<FlatView>, at: int, j: int, depth: nat)
    requires
        0 <= at,
        j <= rows.len(),
        any_deeper(rows, at, j, depth),
    ensures
        depth + 1 < longest(rows),
    decreases j - at,
{
    if rows[at].path.len() > depth + 1 {
        lemma_longest(rows, at);
    } else {
        lemma_deeper_is_shorter(rows, at + 1, j, depth);
    }
}

/// The table rows of the rows from `start` to `end`, all of which share
/// their segments above `depth`. A row that does not reach `depth` has its
/// row already. Each other row opens a group; the group gets one row, then
/// the rows of what goes deeper in it, one level down, and then come the
/// rows of what follows the group.
pub open spec fn range_rows(
    rows: Seq<FlatView>,
    start: int,
    end: int,
    depth: nat,
    prefix: Seq<char>,
    glyphs: GlyphsView,
) -> Seq<RowView>
    decreases longest(rows) - depth, end - start,
{
    if start < 0 || start >= end || end > rows.len() {
        Seq::empty()
    } else if rows[start].path.len() <= depth {
        range_rows(rows, start + 1, end, depth, prefix, glyphs)
    } else {
        let j = group_end(rows, start, start + 1, end, depth);
        let is_last = group_is_last(rows, start, j, end, depth);
        proof {
            lemma_group_end(rows, start, start + 1, end, depth);
            if any_deeper(rows, start, j, depth) {
                lemma_deeper_is_shorter(rows, start, j, depth);
            }
        }
        seq![group_row(rows, start, j, depth, is_last, prefix, glyphs)] + (if any_deeper(
            rows,
            start,
            j,
            depth,
        ) {
            range_rows(rows, start, j, depth + 1, deeper_prefix(prefix, depth, is_last, glyphs), glyphs)
        } else {
            Seq::empty()
        }) + range_rows(rows, j, end, depth, prefix, glyphs)
    }
}

/// Whether two paths have the same first `depth` segments.
fn same_prefix(a: &Vec<String>, b: &Vec<String>, depth: usize) -> (same: bool)
    requires
        depth <= a.len(),
        depth <= b.len(),
    ensures
        same == (path_view(a@).take(depth as int) == path_view(b@).take(depth as int)),
{
    let mut d: usize = 0;
    while d < depth
        invariant
            d <= depth,
            depth <= a.len(),
            depth <= b.len(),
            path_view(a@).take(d as int) == path_view(b@).take(d as int),
        decreases depth - d,
    {
        if a[d] != b[d] {
            proof {
                let x = path_view(a@).take(depth as int);
                let y = path_view(b@).take(depth as int);
                assert(x[d as int] == a@[d as int]@);
                assert(y[d as int] == b@[d as int]@);
            }
            return false;
        }
        proof {
            let x = path_view(a@).take(d + 1);
            let y = path_view(b@).take(d + 1);
            assert(x.drop_last() =~= path_view(a@).take(d as int));
            assert(y.drop_last() =~= path_view(b@).take(d as int));
            assert(x =~= x.drop_last().push(a@[d as int]@));
            assert(y =~= y.drop_last().push(b@[d as int]@));
        }
        d += 1;
    }
    true
}

/// Finds the end of the group that the row `i` opens.
fn find_group_end(rows: &Vec<FlatRow>, i: usize, end: usize, depth: usize) -> (j: usize)
    requires
        i < end <= rows.len(),
        rows[i as int].path.len() > depth,
    ensures
        j == group_end(flat_view(rows@), i as int, i + 1, end as int, depth as nat),
        i < j <= end,
{
    let ghost flat = flat_view(rows@);
    let mut j: usize = i + 1;
    while j < end
        invariant
            i < j <= end <= rows.len(),
            rows[i as int].path.len() > depth,
            flat == flat_view(rows@),
            group_end(flat, i as int, j as int, end as int, depth as nat) == group_end(
                flat,
                i as int,
                i + 1,
                end as int,
                depth as nat,
            ),
        decreases end - j,
    {
        let belongs = rows[j].path.len() > depth && same_prefix(&rows[j].path, &rows[i].path, depth)
            && rows[j].path[depth] == rows[i].path[depth];
        assert(belongs == same_group(flat, i as int, j as int, depth as nat));
        if !belongs {
            return j;
        }
        j += 1;
    }
    j
}

/// Tells whether the group of the row `i`, which ends at `j`, is the last
/// below its parent.
fn find_is_last(rows: &Vec<FlatRow>, i: usize, j: usize, end: usize, depth: usize) -> (last: bool)
    requires
        i < j <= end <= rows.len(),
        rows[i as int].path.len() > depth,
    ensures
        last == group_is_last(flat_view(rows@), i as int, j as int, end as int, depth as nat),
{
    let ghost flat = flat_view(rows@);
    let mut k: usize = j;
    while k < end && rows[k].path.len() <= depth
        invariant
            j <= k <= end <= rows.len(),
            flat == flat_view(rows@),
            next_reaching(flat, k as int, end as int, depth as nat) == next_reaching(
                flat,
                j as int,
                end as int,
                depth as nat,
            ),
        decreases end - k,
    {
        k += 1;
    }
    k == end || !same_prefix(&rows[k].path, &rows[i].path, depth)
}

/// Finds the first row of the group whose path ends at `depth`.
fn find_ending(rows: &Vec<FlatRow>, i: usize, j: usize, depth: usize) -> (e: usize)
    requires
        i <= j <= rows.len(),
        depth < usize::MAX,
    ensures
        e == first_ending(flat_view(rows@), i as int, j as int, depth as nat),
        i <= e <= j,
        e < j ==> rows[e as int].path.len() == depth + 1,
{
    let ghost flat = flat_view(rows@);
    let mut e: usize = i;
    while e < j && rows[e].path.len() != depth + 1
        invariant
            i <= e <= j <= rows.len(),
            depth < usize::MAX,
            flat == flat_view(rows@),
            first_ending(flat, e as int, j as int, depth as nat) == first_ending(
                flat,
                i as int,
                j as int,
                depth as nat,
            ),
        decreases j - e,
    {
        e += 1;
    }
    e
}

/// Tells whether a path of the group goes deeper than `depth`.
fn find_deeper(rows: &Vec<FlatRow>, i: usize, j: usize, depth: usize) -> (deeper: bool)
    requires
        i <= j <= rows.len(),
        depth < usize::MAX,
    ensures
        deeper == any_deeper(flat_view(rows@), i as int, j as int, depth as nat),
{
    let ghost flat = flat_view(rows@);
    let mut at: usize = i;
    while at < j
        invariant
            i <= at <= j <= rows.len(),
            depth < usize::MAX,
            flat == flat_view(rows@),
            any_deeper(flat, at as int, j as int, depth as nat) == any_deeper(
                flat,
                i as int,
                j as int,
                depth as nat,
            ),
        decreases j - at,
    {
        if rows[at].path.len() > depth + 1 {
            return true;
        }
        at += 1;
    }
    false
}

/// Appends to `out` the table rows of the rows from `start` to `end`, all
/// of which share their segments above `depth`, drawn with `glyphs`.
pub fn draw_range(
    rows: &Vec<FlatRow>,
    start: usize,
    end: usize,
    depth: usize,
    prefix: &str,
    glyphs: &Glyphs,
    out: &mut Vec<TableRow>,
)
    requires
        start <= end <= rows.len(),
    ensures
        rows_view(final(out)@) == rows_view(old(out)@) + range_rows(
            flat_view(rows@),
            start as int,
            end as int,
            depth as nat,
            prefix@,
            glyphs@,
        ),
    decreases longest(flat_view(rows@)) - depth, end - start,
{
    let ghost flat = flat_view(rows@);
    let ghost g = glyphs@;
    let mut i: usize = start;
    while i < end
        invariant
            start <= i <= end <= rows.len(),
            flat == flat_view(rows@),
            g == glyphs@,
            rows_view(out@) + range_rows(flat, i as int, end as int, depth as nat, prefix@, g)
                == rows_view(old(out)@) + range_rows(
                flat,
                start as int,
                end as int,
                depth as nat,
                prefix@,
                g,
            ),
        decreases end - i,
    {
        if rows[i].path.len() <= depth {
            i += 1;
            continue ;
        }
        let j = find_group_end(rows, i, end, depth);
        let is_last = find_is_last(rows, i, j, end, depth);
        let e = find_ending(rows, i, j, depth);
        let deeper = find_deeper(rows, i, j, depth);
        let ghost so_far = rows_view(out@);

        let label = draw_label(0, prefix, depth, is_last, glyphs, rows[i].path[depth].as_str());
        let (value, fg) = if e < j {
            (rows[e].content.clone(), rows[e].style.text_fg)
        } else {
            (String::new(), glyphs.placeholder)
        };
        let row = TableRow { label, value, fg };
        let ghost own = group_row(flat, i as int, j as int, depth as nat, is_last, prefix@, g);
        assert(row@.label =~= own.label);
        assert(row@ == own);
        out.push(row);
        assert(rows_view(out@) =~= so_far + seq![own]);

        let ghost below = deeper_prefix(prefix@, depth as nat, is_last, g);
        let ghost inner = if deeper {
            range_rows(flat, i as int, j as int, (depth + 1) as nat, below, g)
        } else {
            Seq::empty()
        };
        if deeper {
            proof {
                lemma_deeper_is_shorter(flat, i as int, j as int, depth as nat);
            }
            if depth != 0 {
                let longer = extend_prefix(prefix, is_last, glyphs);
                draw_range(rows, i, j, depth + 1, longer.as_str(), glyphs, out);
            } else {
                draw_range(rows, i, j, depth + 1, prefix, glyphs, out);
            }
        }
        proof {
            let later = range_rows(flat, j as int, end as int, depth as nat, prefix@, g);
            assert(rows_view(out@) =~= so_far + seq![own] + inner);
            assert(range_rows(flat, i as int, end as int, depth as nat, prefix@, g) == seq![own]
                + inner + later);
            assert(so_far + (seq![own] + inner + later) =~= (so_far + seq![own] + inner) + later);
        }
        i = j;
    }
    proof {
        assert(rows_view(out@) + Seq::<RowView>::empty() =~= rows_view(out@));
    }
}

/// Appends to `out` the table rows of the rows from `start` to `end`, all
/// of which share their segments above `depth`, drawn with the rounded
/// glyphs.
pub fn render_range(
    rows: &Vec<FlatRow>,
    start: usize,
    end: usize,
    depth: usize,
    prefix: &str,
    out: &mut Vec<TableRow>,
)
    requires
        start <= end <= rows.len(),
    ensures
        rows_view(final(out)@) == rows_view(old(out)@) + range_rows(
            flat_view(rows@),
            start as int,
            end as int,
            depth as nat,
            prefix@,
            rounded_glyphs(),
        ),
{
    let glyphs = Glyphs::rounded();
    draw_range(rows, start, end, depth, prefix, &glyphs, out);
}

/// The paths of a tree that hold a value, the top first, then those below
/// it, where `above` is the path to the top's parent.
pub open spec fn tree_flat(t: TreeView, above: Seq<Seq<char>>) -> Seq<FlatView>
    decreases t, 0nat,
{
    (match t.slot {
        Some(slot) => seq![
            FlatView { path: above.push(t.segment), content: slot.content, style: slot.style },
        ],
        None => Seq::empty(),
    }) + sibling_flat(t.children, 0, above.push(t.segment))
}

/// The paths that hold a value at or below the siblings from position `k`
/// on.
pub open spec fn sibling_flat(forest: Seq<TreeView>, k: nat, above: Seq<Seq<char>>) -> Seq<FlatView>
    decreases forest, forest.len() - k,
{
    if k >= forest.len() {
        Seq::empty()
    } else {
        tree_flat(forest[k as int], above) + sibling_flat(forest, k + 1, above)
    }
}

/// The paths of a forest that hold a value, from top to bottom, each with
/// the text and the style of its value.
pub open spec fn forest_flat(forest: Seq<TreeView>) -> Seq<FlatView> {
    sibling_flat(forest, 0, Seq::empty())
}

/// Copies a path.
fn copy_path(path: &Vec<String>) -> (copy: Vec<String>)
    ensures
        path_view(copy@) == path_view(path@),
{
    let mut copy: Vec<String> = Vec::new();
    let mut i: usize = 0;
    while i < path.len()
        invariant
            i <= path.len(),
            copy.len() == i,
            forall|k: int| 0 <= k < i ==> (#[trigger] copy@[k])@ == path@[k]@,
        decreases path.len() - i,
    {
        copy.push(path[i].clone());
        i += 1;
    }
    assert(path_view(copy@) =~= path_view(path@));
    copy
}

/// Appends to `out` the paths that hold a value at or below `node`, where
/// `above` is the path to the node's parent. `above` is put back as it was.
fn flatten_node(tree: &PathTree, node: usize, above: &mut Vec<String>, out: &mut Vec<FlatRow>)
    requires
        tree.wf(),
        tree.holds(node),
    ensures
        path_view(final(above)@) == path_view(old(above)@),
        flat_view(final(out)@) == flat_view(old(out)@) + tree_flat(
            tree.at(node),
            path_view(old(above)@),
        ),
    decreases tree.size() - node,
{
    let ghost t = tree.at(node);
    let ghost upper = path_view(above@);
    let ghost before = flat_view(out@);
    above.push(tree.segment(node).clone());
    let ghost here = path_view(above@);
    assert(here =~= upper.push(t.segment));
    match tree.slot(node) {
        Some(slot) => {
            let row = FlatRow {
                path: copy_path(above),
                content: slot.content.clone(),
                style: slot.style,
            };
            out.push(row);
            assert(flat_view(out@) =~= before + seq![row@]);
        },
        None => {
            assert(flat_view(out@) =~= before + Seq::<FlatView>::empty());
        },
    }
    let ghost own = flat_view(out@);
    let n = tree.child_count(node);
    let mut k: usize = 0;
    while k < n
        invariant
            tree.wf(),
            tree.holds(node),
            t == tree.at(node),
            n == t.children.len(),
            k <= n,
            path_view(above@) == here,
            flat_view(out@) + sibling_flat(t.children, k as nat, here) == own + sibling_flat(
                t.children,
                0,
                here,
            ),
        decreases n - k,
    {
        let child = tree.child(node, k);
        let ghost so_far = flat_view(out@);
        flatten_node(tree, child, above, out);
        proof {
            let first = tree_flat(t.children[k as int], here);
            let later = sibling_flat(t.children, (k + 1) as nat, here);
            assert((so_far + first) + later =~= so_far + (first + later));
        }
        k += 1;
    }
    let ghost full = above@;
    assert(full.len() == here.len());
    above.pop();
    proof {
        assert(above@ =~= full.drop_last());
        assert(path_view(above@) =~= here.drop_last());
        assert(here.drop_last() =~= upper);
        assert(flat_view(out@) + Seq::<FlatView>::empty() =~= flat_view(out@));
        let head = match t.slot {
            Some(slot) => seq![
                FlatView { path: upper.push(t.segment), content: slot.content, style: slot.style },
            ],
            None => Seq::empty(),
        };
        assert(own == before + head);
        assert((before + head) + sibling_flat(t.children, 0, here) =~= before + (head
            + sibling_flat(t.children, 0, here)));
    }
}

/// The paths of the tree that hold a value, from top to bottom.
pub fn flatten(tree: &PathTree) -> (rows: Vec<FlatRow>)
    requires
        tree.wf(),
    ensures
        flat_view(rows@) == forest_flat(tree@),
{
    let mut rows: Vec<FlatRow> = Vec::new();
    let mut above: Vec<String> = Vec::new();
    let root = tree.root();
    let n = tree.child_count(root);
    let mut k: usize = 0;
    proof {
        assert(flat_view(rows@) =~= Seq::<FlatView>::empty());
        assert(path_view(above@) =~= Seq::<Seq<char>>::empty());
        assert(Seq::<FlatView>::empty() + forest_flat(tree@) =~= forest_flat(tree@));
    }
    while k < n
        invariant
            tree.wf(),
            tree.holds(root),
            tree.at(root).children == tree@,
            n == tree@.len(),
            k <= n,
            path_view(above@) == Seq::<Seq<char>>::empty(),
            flat_view(rows@) + sibling_flat(tree@, k as nat, Seq::empty()) == forest_flat(tree@),
        decreases n - k,
    {
        let top = tree.child(root, k);
        let ghost so_far = flat_view(rows@);
        flatten_node(tree, top, &mut above, &mut rows);
        proof {
            let first = tree_flat(tree@[k as int], Seq::empty());
            let later = sibling_flat(tree@, (k + 1) as nat, Seq::empty());
            assert((so_far + first) + later =~= so_far + (first + later));
        }
        k += 1;
    }
    proof {
        assert(flat_view(rows@) + Seq::<FlatView>::empty() =~= flat_view(rows@));
    }
    rows
}

} // verus!
