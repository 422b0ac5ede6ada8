//! The rows of a forest, held against its nodes: one row for each node, in
//! the order of the nodes, each drawn with the columns of its ancestors, a
//! connector and its name.

use vstd::prelude::*;
use crate::forest::{
    distinct_names, find, forest_lookup, is_void, lemma_find, lemma_find_first, pruned, resolves,
    TreeView,
};
use crate::laws::{is_prefix, lemma_found_resolves, lemma_resolves_prefix, tree_value};
use crate::render::{
    child_prefix, column, connector, forest_rows, row_of, sibling_rows, tree_rows, value_colour,
    value_text, GlyphsView, RowView,
};
use crate::slot::SlotView;
use crate::strings::spaces;

verus! {

/// A node of a forest: the path that leads to it, the value it holds, and
/// for each node along the path whether it is the last of its siblings.
pub struct Entry {
    pub path: Seq<Seq<char>>,
    pub slot: Option<SlotView>,
    pub lasts: Seq<bool>,
}

/// The nodes of a tree, the top first, then those below it, where `above`
/// is the path to the top's parent, `marks` tells of each node along that
/// path whether it is a last sibling, and `is_last` tells it of the top.
pub open spec fn tree_entries(
    t: TreeView,
    above: Seq<Seq<char>>,
    marks: Seq<bool>,
    is_last: bool,
) -> Seq<Entry>
    decreases t, 0nat,
{
    seq![Entry { path: above.push(t.segment), slot: t.slot, lasts: marks.push(is_last) }]
        + sibling_entries(t.children, 0, above.push(t.segment), marks.push(is_last))
}

/// The nodes of the siblings from position `k` on and of all below them.
pub open spec fn sibling_entries(
    forest: Seq<TreeView>,
    k: nat,
    above: Seq<Seq<char>>,
    marks: Seq<bool>,
) -> Seq<Entry>
    decreases forest, forest.len() - k,
{
    if k >= forest.len() {
        Seq::empty()
    } else {
        tree_entries(forest[k as int], above, marks, k + 1 == forest.len()) + sibling_entries(
            forest,
            k + 1,
            above,
            marks,
        )
    }
}

/// All the nodes of a forest, from top to bottom.
pub open spec fn forest_entries(forest: Seq<TreeView>) -> Seq<Entry> {
    sibling_entries(forest, 0, Seq::empty(), Seq::empty())
}

/// One column for each of the nodes, in their order: blank for a last
/// sibling, a vertical bar for any other.
pub open spec fn columns(lasts: Seq<bool>, glyphs: GlyphsView) -> Seq<char>
    decreases lasts.len(),
{
    if lasts.len() == 0 {
        Seq::empty()
    } else {
        columns(lasts.drop_last(), glyphs) + column(lasts.last(), glyphs)
    }
}

/// The nodes along a path that stand below the top level.
pub open spec fn below_top(lasts: Seq<bool>) -> Seq<bool> {
    if lasts.len() == 0 {
        lasts
    } else {
        lasts.skip(1)
    }
}

/// What stands before the name of a node, where `lasts` tells of each node
/// along its path, the node itself the last, whether it is a last sibling:
/// the left margin; one column for each ancestor below the top level; and
/// the connector, which a top-level node has none of.
pub open spec fn lead_of(lasts: Seq<bool>, left: nat, glyphs: GlyphsView) -> Seq<char> {
    spaces(left) + columns(below_top(lasts.drop_last()), glyphs) + connector(
        (lasts.len() - 1) as nat,
        lasts.last(),
        glyphs,
    )
}

/// The row is the row of the node: its name stands behind the margin, the
/// columns of the node's ancestors and the node's connector, and its value
/// is the node's.
pub open spec fn row_matches(row: RowView, entry: Entry, left: nat, glyphs: GlyphsView) -> bool {
    &&& entry.path.len() > 0
    &&& entry.lasts.len() == entry.path.len()
    &&& row.label == lead_of(entry.lasts, left, glyphs) + entry.path.last()
    &&& row.value == value_text(entry.slot)
    &&& row.fg == value_colour(entry.slot, glyphs)
}

/// There is one row for each node, in the same order, and it is the node's.
pub open spec fn rows_match(
    rows: Seq<RowView>,
    entries: Seq<Entry>,
    left: nat,
    glyphs: GlyphsView,
) -> bool {
    &&& rows.len() == entries.len()
    &&& forall|i: int|
        0 <= i < rows.len() ==> row_matches(#[trigger] rows[i], entries[i], left, glyphs)
}

proof fn lemma_rows_match_joined(
    a: Seq<RowView>,
    ea: Seq<Entry>,
    b: Seq<RowView>,
    eb: Seq<Entry>,
    left: nat,
    glyphs: GlyphsView,
)
    requires
        rows_match(a, ea, left, glyphs),
        rows_match(b, eb, left, glyphs),
    ensures
        rows_match(a + b, ea + eb, left, glyphs),
{
    assert forall|i: int| 0 <= i < (a + b).len() implies row_matches(
        #[trigger] (a + b)[i],
        (ea + eb)[i],
        left,
        glyphs,
    ) by {
        if i < a.len() {
            assert(row_matches(a[i], ea[i], left, glyphs));
        } else {
            assert(row_matches(b[i - a.len()], eb[i - a.len()], left, glyphs));
        }
    }
}

proof fn lemma_tree_rows_match(
    t: TreeView,
    depth: nat,
    is_last: bool,
    prefix: Seq<char>,
    left: nat,
    glyphs: GlyphsView,
    above: Seq<Seq<char>>,
    marks: Seq<bool>,
)
    requires
        above.len() == depth,
        marks.len() == depth,
        prefix == columns(below_top(marks), glyphs),
    ensures
        rows_match(
            tree_rows(t, depth, is_last, prefix, left, glyphs),
            tree_entries(t, above, marks, is_last),
            left,
            glyphs,
        ),
    decreases t, 0nat,
{
    let row = row_of(t, depth, is_last, prefix, left, glyphs);
    let here = above.push(t.segment);
    let flags = marks.push(is_last);
    let entry = Entry { path: here, slot: t.slot, lasts: flags };
    let below = child_prefix(prefix, depth, is_last, glyphs);
    assert(flags.drop_last() =~= marks);
    assert(row_matches(row, entry, left, glyphs));
    assert(rows_match(seq![row], seq![entry], left, glyphs));
    assert(below == columns(below_top(flags), glyphs)) by {
        if depth == 0 {
            assert(below_top(flags) =~= Seq::<bool>::empty());
        } else {
            assert(below_top(flags).drop_last() =~= below_top(marks));
            assert(below_top(flags).last() == is_last);
        }
    }
    lemma_sibling_rows_match(t.children, 0, depth + 1, below, left, glyphs, here, flags);
    lemma_rows_match_joined(
        seq![row],
        seq![entry],
        sibling_rows(t.children, 0, depth + 1, below, left, glyphs),
        sibling_entries(t.children, 0, here, flags),
        left,
        glyphs,
    );
}

proof fn lemma_sibling_rows_match(
    forest: Seq<TreeView>,
    k: nat,
    depth: nat,
    prefix: Seq<char>,
    left: nat,
    glyphs: GlyphsView,
    above: Seq<Seq<char>>,
    marks: Seq<bool>,
)
    requires
        above.len() == depth,
        marks.len() == depth,
        prefix == columns(below_top(marks), glyphs),
    ensures
        rows_match(
            sibling_rows(forest, k, depth, prefix, left, glyphs),
            sibling_entries(forest, k, above, marks),
            left,
            glyphs,
        ),
    decreases forest, forest.len() - k,
{
    if k < forest.len() {
        let is_last = k + 1 == forest.len();
        lemma_tree_rows_match(forest[k as int], depth, is_last, prefix, left, glyphs, above, marks);
        lemma_sibling_rows_match(forest, k + 1, depth, prefix, left, glyphs, above, marks);
        lemma_rows_match_joined(
            tree_rows(forest[k as int], depth, is_last, prefix, left, glyphs),
            tree_entries(forest[k as int], above, marks, is_last),
            sibling_rows(forest, k + 1, depth, prefix, left, glyphs),
            sibling_entries(forest, k + 1, above, marks),
            left,
            glyphs,
        );
    }
}

/// The rows of a forest are the rows of its nodes: one for each node, from
/// top to bottom, and each is made of the left margin, one column for each
/// ancestor below the top level, the connector, the node's name and the
/// node's value.
pub proof fn lemma_one_row_per_node(forest: Seq<TreeView>, left: nat, glyphs: GlyphsView)
    ensures
        rows_match(forest_rows(forest, left, glyphs), forest_entries(forest), left, glyphs),
{
    assert(below_top(Seq::<bool>::empty()) =~= Seq::<bool>::empty());
    lemma_sibling_rows_match(forest, 0, 0, Seq::empty(), left, glyphs, Seq::empty(), Seq::empty());
}

/// The width of what stands before a name at a depth, where the columns
/// are all `wide` wide and the connectors `joint` wide.
pub open spec fn indent_width(depth: nat, wide: nat, joint: nat) -> nat {
    if depth == 0 {
        0
    } else {
        ((depth - 1) * wide + joint) as nat
    }
}

/// Columns of one width add up.
pub proof fn lemma_columns_width(lasts: Seq<bool>, glyphs: GlyphsView)
    requires
        glyphs.vertical.len() == glyphs.blank.len(),
    ensures
        columns(lasts, glyphs).len() == lasts.len() * glyphs.blank.len(),
    decreases lasts.len(),
{
    if lasts.len() > 0 {
        lemma_columns_width(lasts.drop_last(), glyphs);
        assert((lasts.len() - 1) * glyphs.blank.len() + glyphs.blank.len() == lasts.len()
            * glyphs.blank.len()) by (nonlinear_arith);
    } else {
        assert(0 * glyphs.blank.len() == 0) by (nonlinear_arith);
    }
}

/// With columns of one width and connectors of one width, what stands
/// before a name is as wide for every node of a depth.
pub proof fn lemma_lead_width(lasts: Seq<bool>, left: nat, glyphs: GlyphsView)
    requires
        lasts.len() > 0,
        glyphs.vertical.len() == glyphs.blank.len(),
        glyphs.corner.len() == glyphs.junction.len(),
    ensures
        lead_of(lasts, left, glyphs).len() == left + indent_width(
            (lasts.len() - 1) as nat,
            glyphs.blank.len(),
            glyphs.corner.len(),
        ),
{
    lemma_columns_width(below_top(lasts.drop_last()), glyphs);
    if lasts.len() == 1 {
        assert(below_top(lasts.drop_last()).len() == 0);
    } else {
        assert(below_top(lasts.drop_last()).len() == lasts.len() - 2);
    }
}

/// With columns and connectors that are not empty, what stands before a
/// name is wider at a greater depth.
pub proof fn lemma_deeper_is_wider(shallow: nat, deep: nat, wide: nat, joint: nat)
    requires
        shallow < deep,
        wide > 0,
        joint > 0,
    ensures
        indent_width(shallow, wide, joint) < indent_width(deep, wide, joint),
{
    if shallow > 0 {
        assert((shallow - 1) * wide < (deep - 1) * wide) by (nonlinear_arith)
            requires
                0 < shallow < deep,
                wide > 0,
        ;
    } else {
        assert((deep - 1) * wide >= 0) by (nonlinear_arith)
            requires
                deep > 0,
                wide > 0,
        ;
    }
}

/// Every path of the entries goes through `above` and then through one of
/// the siblings from position `k` on.
pub open spec fn below_siblings(
    entries: Seq<Entry>,
    forest: Seq<TreeView>,
    k: nat,
    above: Seq<Seq<char>>,
) -> bool {
    forall|i: int|
        0 <= i < entries.len() ==> {
            let path = (#[trigger] entries[i]).path;
            &&& path.len() > above.len()
            &&& path.take(above.len() as int) == above
            &&& exists|j: int| k <= j < forest.len() && path[above.len() as int] == forest[j].segment
        }
}

/// No two entries have the same path.
pub open spec fn distinct_paths(entries: Seq<Entry>) -> bool {
    forall|a: int, b: int|
        0 <= a < b < entries.len() ==> (#[trigger] entries[a]).path != (#[trigger] entries[b]).path
}

proof fn lemma_tree_entries_distinct(
    t: TreeView,
    above: Seq<Seq<char>>,
    marks: Seq<bool>,
    is_last: bool,
)
    requires
        distinct_names(t.children),
    ensures
        distinct_paths(tree_entries(t, above, marks, is_last)),
        forall|i: int|
            0 <= i < tree_entries(t, above, marks, is_last).len() ==> {
                let path = (#[trigger] tree_entries(t, above, marks, is_last)[i]).path;
                &&& path.len() > above.len()
                &&& path.take(above.len() as int) == above
                &&& path[above.len() as int] == t.segment
            },
    decreases t, 0nat,
{
    let here = above.push(t.segment);
    let all = tree_entries(t, above, marks, is_last);
    let lower = sibling_entries(t.children, 0, here, marks.push(is_last));
    lemma_sibling_entries_distinct(t.children, 0, here, marks.push(is_last));
    assert(all[0].path == here);
    assert(here.take(above.len() as int) =~= above);
    assert forall|i: int| 0 <= i < all.len() implies ({
        let path = (#[trigger] all[i]).path;
        &&& path.len() > above.len()
        &&& path.take(above.len() as int) == above
        &&& path[above.len() as int] == t.segment
    }) by {
        if i > 0 {
            let path = lower[i - 1].path;
            assert(all[i] == lower[i - 1]);
            assert(path.take(here.len() as int) == here);
            assert(path.take(above.len() as int) =~= path.take(here.len() as int).take(
                above.len() as int,
            ));
            assert(path[above.len() as int] == path.take(here.len() as int)[above.len() as int]);
        }
    }
    assert forall|a: int, b: int| 0 <= a < b < all.len() implies (#[trigger] all[a]).path != (
    #[trigger] all[b]).path by {
        assert(all[b] == lower[b - 1]);
        if a == 0 {
            assert(lower[b - 1].path.len() > here.len());
        } else {
            assert(all[a] == lower[a - 1]);
        }
    }
}

proof fn lemma_sibling_entries_distinct(
    forest: Seq<TreeView>,
    k: nat,
    above: Seq<Seq<char>>,
    marks: Seq<bool>,
)
    requires
        distinct_names(forest),
    ensures
        distinct_paths(sibling_entries(forest, k, above, marks)),
        below_siblings(sibling_entries(forest, k, above, marks), forest, k, above),
    decreases forest, forest.len() - k,
{
    if k < forest.len() {
        let first = tree_entries(forest[k as int], above, marks, k + 1 == forest.len());
        let later = sibling_entries(forest, k + 1, above, marks);
        let all = sibling_entries(forest, k, above, marks);
        assert(distinct_names(forest[k as int].children));
        lemma_tree_entries_distinct(forest[k as int], above, marks, k + 1 == forest.len());
        lemma_sibling_entries_distinct(forest, k + 1, above, marks);
        assert forall|i: int| 0 <= i < all.len() implies ({
            let path = (#[trigger] all[i]).path;
            &&& path.len() > above.len()
            &&& path.take(above.len() as int) == above
            &&& exists|j: int| k <= j < forest.len() && path[above.len() as int] == forest[j].segment
        }) by {
            if i < first.len() {
                assert(all[i] == first[i]);
                assert(first[i].path[above.len() as int] == forest[k as int].segment);
            } else {
                assert(all[i] == later[i - first.len()]);
                let path = later[i - first.len()].path;
                let j = choose|j: int|
                    k + 1 <= j < forest.len() && path[above.len() as int] == forest[j].segment;
                assert(k <= j < forest.len() && path[above.len() as int] == forest[j].segment);
            }
        }
        assert forall|a: int, b: int| 0 <= a < b < all.len() implies (#[trigger] all[a]).path != (
        #[trigger] all[b]).path by {
            if b < first.len() {
                assert(all[a] == first[a] && all[b] == first[b]);
            } else if a >= first.len() {
                assert(all[a] == later[a - first.len()] && all[b] == later[b - first.len()]);
            } else {
                assert(all[a] == first[a]);
                assert(all[b] == later[b - first.len()]);
                let path = later[b - first.len()].path;
                let j = choose|j: int|
                    k + 1 <= j < forest.len() && path[above.len() as int] == forest[j].segment;
                assert(forest[k as int].segment != forest[j].segment);
            }
        }
    }
}

/// Where no two siblings share a name, no two nodes of the forest have the
/// same path: a node has one row, however many nodes hang below it.
pub proof fn lemma_paths_listed_once(forest: Seq<TreeView>)
    requires
        distinct_names(forest),
    ensures
        distinct_paths(forest_entries(forest)),
{
    lemma_sibling_entries_distinct(forest, 0, Seq::empty(), Seq::empty());
}

/// Each entry below `above` holds what a lookup of the rest of its path
/// finds among the siblings.
pub open spec fn entries_found(entries: Seq<Entry>, forest: Seq<TreeView>, above: Seq<Seq<char>>) -> bool {
    forall|i: int|
        0 <= i < entries.len() ==> forest_lookup(
            forest,
            (#[trigger] entries[i]).path.skip(above.len() as int),
        ) == entries[i].slot
}

proof fn lemma_tree_entries_found(
    t: TreeView,
    above: Seq<Seq<char>>,
    marks: Seq<bool>,
    is_last: bool,
)
    requires
        distinct_names(t.children),
    ensures
        forall|i: int|
            0 <= i < tree_entries(t, above, marks, is_last).len() ==> {
                let rest = (#[trigger] tree_entries(t, above, marks, is_last)[i]).path.skip(above.len() as int);
                &&& rest.len() >= 1
                &&& rest[0] == t.segment
                &&& tree_value(t, rest) == tree_entries(t, above, marks, is_last)[i].slot
            },
    decreases t, 0nat,
{
    let here = above.push(t.segment);
    let all = tree_entries(t, above, marks, is_last);
    let lower = sibling_entries(t.children, 0, here, marks.push(is_last));
    lemma_sibling_entries_found(t.children, 0, here, marks.push(is_last));
    lemma_sibling_entries_distinct(t.children, 0, here, marks.push(is_last));
    assert forall|i: int| 0 <= i < all.len() implies ({
        let rest = (#[trigger] all[i]).path.skip(above.len() as int);
        &&& rest.len() >= 1
        &&& rest[0] == t.segment
        &&& tree_value(t, rest) == all[i].slot
    }) by {
        if i == 0 {
            assert(all[0].path == here);
            assert(here.skip(above.len() as int) =~= seq![t.segment]);
        } else {
            assert(all[i] == lower[i - 1]);
            let path = lower[i - 1].path;
            assert(path.take(here.len() as int) == here);
            assert(path[above.len() as int] == path.take(here.len() as int)[above.len() as int]);
            assert(path.skip(above.len() as int).skip(1) =~= path.skip(here.len() as int));
        }
    }
}

proof fn lemma_sibling_entries_found(
    forest: Seq<TreeView>,
    k: nat,
    above: Seq<Seq<char>>,
    marks: Seq<bool>,
)
    requires
        distinct_names(forest),
    ensures
        entries_found(sibling_entries(forest, k, above, marks), forest, above),
    decreases forest, forest.len() - k,
{
    if k < forest.len() {
        let first = tree_entries(forest[k as int], above, marks, k + 1 == forest.len());
        let later = sibling_entries(forest, k + 1, above, marks);
        let all = sibling_entries(forest, k, above, marks);
        assert(distinct_names(forest[k as int].children));
        lemma_tree_entries_found(forest[k as int], above, marks, k + 1 == forest.len());
        lemma_sibling_entries_found(forest, k + 1, above, marks);
        assert forall|i: int| 0 <= i < all.len() implies forest_lookup(
            forest,
            (#[trigger] all[i]).path.skip(above.len() as int),
        ) == all[i].slot by {
            if i < first.len() {
                assert(all[i] == first[i]);
                let rest = first[i].path.skip(above.len() as int);
                assert forall|j: int| 0 <= j < k implies (#[trigger] forest[j]).segment
                    != rest[0] by {
                    assert(forest[j].segment != forest[k as int].segment);
                }
                lemma_find_first(forest, rest[0], 0, k as int);
            } else {
                assert(all[i] == later[i - first.len()]);
            }
        }
    }
}

/// Where no two siblings share a name, each node of the listing holds what
/// a lookup of its path finds: a row shows the value that was put at its
/// node's path, and a row without value stands for a path at which none was
/// put.
pub proof fn lemma_listed_is_found(forest: Seq<TreeView>, i: int)
    requires
        distinct_names(forest),
        0 <= i < forest_entries(forest).len(),
    ensures
        forest_lookup(forest, forest_entries(forest)[i].path) == forest_entries(forest)[i].slot,
{
    lemma_sibling_entries_found(forest, 0, Seq::empty(), Seq::empty());
    let path = forest_entries(forest)[i].path;
    assert(path.skip(0) =~= path);
}

/// Whether the listing has the node at `path`, with the value `slot`.
pub open spec fn lists(entries: Seq<Entry>, path: Seq<Seq<char>>, slot: Option<SlotView>) -> bool {
    exists|i: int| 0 <= i < entries.len() && (#[trigger] entries[i]).path == path && entries[i].slot == slot
}

proof fn lemma_sibling_entries_hold(
    forest: Seq<TreeView>,
    k: nat,
    j: int,
    above: Seq<Seq<char>>,
    marks: Seq<bool>,
    path: Seq<Seq<char>>,
    slot: Option<SlotView>,
)
    requires
        k <= j < forest.len(),
        lists(tree_entries(forest[j], above, marks, j + 1 == forest.len()), path, slot),
    ensures
        lists(sibling_entries(forest, k, above, marks), path, slot),
    decreases j - k,
{
    let first = tree_entries(forest[k as int], above, marks, k + 1 == forest.len());
    let later = sibling_entries(forest, k + 1, above, marks);
    if k == j {
        let at = choose|at: int|
            0 <= at < first.len() && (#[trigger] first[at]).path == path && first[at].slot == slot;
        assert((first + later)[at] == first[at]);
    } else {
        lemma_sibling_entries_hold(forest, k + 1, j, above, marks, path, slot);
        let at = choose|at: int|
            0 <= at < later.len() && (#[trigger] later[at]).path == path && later[at].slot == slot;
        assert((first + later)[first.len() + at] == later[at]);
    }
}

proof fn lemma_node_below(
    forest: Seq<TreeView>,
    rest: Seq<Seq<char>>,
    above: Seq<Seq<char>>,
    marks: Seq<bool>,
)
    requires
        resolves(forest, rest),
    ensures
        lists(sibling_entries(forest, 0, above, marks), above + rest, forest_lookup(forest, rest)),
    decreases rest.len(),
{
    lemma_find(forest, rest[0]);
    let j = find(forest, rest[0]);
    let is_last = j + 1 == forest.len();
    let slot = forest_lookup(forest, rest);
    let here = above.push(forest[j].segment);
    let all = tree_entries(forest[j], above, marks, is_last);
    if rest.len() == 1 {
        assert(above + rest =~= here);
        assert(all[0].path == above + rest && all[0].slot == slot);
    } else {
        lemma_node_below(forest[j].children, rest.skip(1), here, marks.push(is_last));
        assert(here + rest.skip(1) =~= above + rest);
        let lower = sibling_entries(forest[j].children, 0, here, marks.push(is_last));
        let at = choose|at: int|
            0 <= at < lower.len() && (#[trigger] lower[at]).path == above + rest && lower[at].slot
                == slot;
        assert(all[at + 1] == lower[at]);
    }
    lemma_sibling_entries_hold(forest, 0, j, above, marks, above + rest, slot);
}

/// Every node is listed: a path that leads to a node has a row, which
/// shows what a lookup of the path finds.
pub proof fn lemma_node_is_listed(forest: Seq<TreeView>, path: Seq<Seq<char>>)
    requires
        resolves(forest, path),
    ensures
        lists(forest_entries(forest), path, forest_lookup(forest, path)),
{
    lemma_node_below(forest, path, Seq::empty(), Seq::empty());
    assert(Seq::<Seq<char>>::empty() + path =~= path);
}

/// A value that a lookup finds is listed: the path that holds it has a row.
pub proof fn lemma_found_is_listed(forest: Seq<TreeView>, path: Seq<Seq<char>>)
    requires
        forest_lookup(forest, path) is Some,
    ensures
        lists(forest_entries(forest), path, forest_lookup(forest, path)),
{
    lemma_found_resolves(forest, path);
    lemma_node_is_listed(forest, path);
}

/// In the listing a node stands before every node below it.
pub open spec fn ancestors_first(entries: Seq<Entry>) -> bool {
    forall|i: int, j: int|
        0 <= i < entries.len() && 0 <= j < entries.len() && i != j && is_prefix(
            (#[trigger] entries[i]).path,
            (#[trigger] entries[j]).path,
        ) ==> i < j
}

proof fn lemma_tree_entries_ordered(
    t: TreeView,
    above: Seq<Seq<char>>,
    marks: Seq<bool>,
    is_last: bool,
)
    requires
        distinct_names(t.children),
    ensures
        ancestors_first(tree_entries(t, above, marks, is_last)),
    decreases t, 0nat,
{
    let here = above.push(t.segment);
    let flags = marks.push(is_last);
    let all = tree_entries(t, above, marks, is_last);
    let lower = sibling_entries(t.children, 0, here, flags);
    lemma_sibling_entries_ordered(t.children, 0, here, flags);
    lemma_sibling_entries_distinct(t.children, 0, here, flags);
    assert forall|i: int, j: int|
        0 <= i < all.len() && 0 <= j < all.len() && i != j && is_prefix(
            (#[trigger] all[i]).path,
            (#[trigger] all[j]).path,
        ) implies i < j by {
        if i > 0 {
            assert(all[i] == lower[i - 1]);
            if j == 0 {
                assert(all[0].path == here);
                assert(lower[i - 1].path.len() > here.len());
            } else {
                assert(all[j] == lower[j - 1]);
            }
        }
    }
}

proof fn lemma_sibling_entries_ordered(
    forest: Seq<TreeView>,
    k: nat,
    above: Seq<Seq<char>>,
    marks: Seq<bool>,
)
    requires
        distinct_names(forest),
    ensures
        ancestors_first(sibling_entries(forest, k, above, marks)),
    decreases forest, forest.len() - k,
{
    if k < forest.len() {
        let is_last = k + 1 == forest.len();
        let first = tree_entries(forest[k as int], above, marks, is_last);
        let later = sibling_entries(forest, k + 1, above, marks);
        let all = sibling_entries(forest, k, above, marks);
        assert(distinct_names(forest[k as int].children));
        lemma_tree_entries_ordered(forest[k as int], above, marks, is_last);
        lemma_sibling_entries_ordered(forest, k + 1, above, marks);
        lemma_tree_entries_distinct(forest[k as int], above, marks, is_last);
        lemma_sibling_entries_distinct(forest, k + 1, above, marks);
        assert forall|i: int, j: int|
            0 <= i < all.len() && 0 <= j < all.len() && i != j && is_prefix(
                (#[trigger] all[i]).path,
                (#[trigger] all[j]).path,
            ) implies i < j by {
            let d = above.len() as int;
            if i < first.len() && j < first.len() {
                assert(all[i] == first[i] && all[j] == first[j]);
            } else if i >= first.len() && j >= first.len() {
                assert(all[i] == later[i - first.len()] && all[j] == later[j - first.len()]);
            } else if i >= first.len() {
                // a later sibling's node is no beginning of the first's
                assert(all[i] == later[i - first.len()]);
                assert(all[j] == first[j]);
                let path = later[i - first.len()].path;
                let other = choose|other: int|
                    k + 1 <= other < forest.len() && path[d] == forest[other].segment;
                assert(forest[k as int].segment != forest[other].segment);
                assert(first[j].path.take(path.len() as int)[d] == first[j].path[d]);
                assert(false);
            }
        }
    }
}

/// Where no two siblings share a name, a node stands in the listing before
/// every node below it: the row of a node without value comes before the
/// rows of all that hangs below it.
pub proof fn lemma_ancestors_listed_first(forest: Seq<TreeView>)
    requires
        distinct_names(forest),
    ensures
        ancestors_first(forest_entries(forest)),
{
    lemma_sibling_entries_ordered(forest, 0, Seq::empty(), Seq::empty());
}

/// Whether a value is found at `path` or somewhere below it.
pub open spec fn leads_to_value(forest: Seq<TreeView>, path: Seq<Seq<char>>) -> bool {
    exists|whole: Seq<Seq<char>>| #[trigger]
        is_prefix(path, whole) && forest_lookup(forest, whole) is Some
}

/// A node that is not void, above nodes none of which is void, holds a
/// value or has one below it.
proof fn lemma_value_below(t: TreeView) -> (rest: Seq<Seq<char>>)
    requires
        !is_void(t),
        pruned(t.children),
    ensures
        tree_value(t, seq![t.segment] + rest) is Some,
    decreases t,
{
    if t.slot is Some {
        assert(seq![t.segment] + Seq::<Seq<char>>::empty() =~= seq![t.segment]);
        Seq::empty()
    } else {
        let c = t.children[0];
        assert(!is_void(c) && pruned(c.children));
        let deeper = lemma_value_below(c);
        let rest = seq![c.segment] + deeper;
        lemma_find_first(t.children, c.segment, 0, 0);
        assert((seq![t.segment] + rest).skip(1) =~= rest);
        assert(rest[0] == c.segment);
        rest
    }
}

/// Whether a value is found in the tree `t` at a path that begins with
/// `rest`, which begins at `t` itself.
pub open spec fn tree_leads(t: TreeView, rest: Seq<Seq<char>>) -> bool {
    exists|whole: Seq<Seq<char>>| #[trigger]
        is_prefix(rest, whole) && whole.len() >= 1 && whole[0] == t.segment && tree_value(
            t,
            whole,
        ) is Some
}

proof fn lemma_tree_entries_lead(
    t: TreeView,
    above: Seq<Seq<char>>,
    marks: Seq<bool>,
    is_last: bool,
)
    requires
        !is_void(t),
        pruned(t.children),
        distinct_names(t.children),
    ensures
        forall|i: int|
            0 <= i < tree_entries(t, above, marks, is_last).len() ==> tree_leads(
                t,
                (#[trigger] tree_entries(t, above, marks, is_last)[i]).path.skip(above.len() as int),
            ),
    decreases t, 0nat,
{
    let here = above.push(t.segment);
    let flags = marks.push(is_last);
    let all = tree_entries(t, above, marks, is_last);
    let lower = sibling_entries(t.children, 0, here, flags);
    lemma_sibling_entries_lead(t.children, 0, here, flags);
    lemma_sibling_entries_distinct(t.children, 0, here, flags);
    assert forall|i: int| 0 <= i < all.len() implies tree_leads(
        t,
        (#[trigger] all[i]).path.skip(above.len() as int),
    ) by {
        let rest = all[i].path.skip(above.len() as int);
        if i == 0 {
            let deeper = lemma_value_below(t);
            let whole = seq![t.segment] + deeper;
            assert(all[0].path == here);
            assert(rest =~= seq![t.segment]);
            assert(whole.take(1) =~= rest);
            assert(is_prefix(rest, whole) && whole.len() >= 1 && whole[0] == t.segment
                && tree_value(t, whole) is Some);
        } else {
            assert(all[i] == lower[i - 1]);
            let path = lower[i - 1].path;
            let inner = path.skip(here.len() as int);
            let found = choose|found: Seq<Seq<char>>| #[trigger]
                is_prefix(inner, found) && forest_lookup(t.children, found) is Some;
            let whole = seq![t.segment] + found;
            assert(path.take(here.len() as int) == here);
            assert(rest =~= seq![t.segment] + inner) by {
                assert(path[above.len() as int] == path.take(here.len() as int)[above.len() as int]);
            }
            assert(whole.take(rest.len() as int) =~= rest) by {
                assert(found.take(inner.len() as int) == inner);
            }
            assert(whole.skip(1) =~= found);
            assert(found.len() > 0);
            assert(is_prefix(rest, whole) && whole.len() >= 1 && whole[0] == t.segment
                && tree_value(t, whole) is Some);
        }
    }
}

proof fn lemma_sibling_entries_lead(
    forest: Seq<TreeView>,
    k: nat,
    above: Seq<Seq<char>>,
    marks: Seq<bool>,
)
    requires
        pruned(forest),
        distinct_names(forest),
    ensures
        forall|i: int|
            0 <= i < sibling_entries(forest, k, above, marks).len() ==> leads_to_value(
                forest,
                (#[trigger] sibling_entries(forest, k, above, marks)[i]).path.skip(
                    above.len() as int,
                ),
            ),
    decreases forest, forest.len() - k,
{
    if k < forest.len() {
        let t = forest[k as int];
        let is_last = k + 1 == forest.len();
        let first = tree_entries(t, above, marks, is_last);
        let later = sibling_entries(forest, k + 1, above, marks);
        let all = sibling_entries(forest, k, above, marks);
        assert(!is_void(t) && pruned(t.children) && distinct_names(t.children));
        lemma_tree_entries_lead(t, above, marks, is_last);
        lemma_sibling_entries_lead(forest, k + 1, above, marks);
        assert forall|i: int| 0 <= i < all.len() implies leads_to_value(
            forest,
            (#[trigger] all[i]).path.skip(above.len() as int),
        ) by {
            if i < first.len() {
                assert(all[i] == first[i]);
                let rest = first[i].path.skip(above.len() as int);
                let whole = choose|whole: Seq<Seq<char>>| #[trigger]
                    is_prefix(rest, whole) && whole.len() >= 1 && whole[0] == t.segment
                        && tree_value(t, whole) is Some;
                assert forall|j: int| 0 <= j < k implies (#[trigger] forest[j]).segment
                    != whole[0] by {
                    assert(forest[j].segment != forest[k as int].segment);
                }
                lemma_find_first(forest, whole[0], 0, k as int);
                assert(forest_lookup(forest, whole) == tree_value(t, whole));
                assert(is_prefix(rest, whole) && forest_lookup(forest, whole) is Some);
            } else {
                assert(all[i] == later[i - first.len()]);
            }
        }
    }
}

/// The beginnings of the paths that hold a value: every path that is the
/// first segments, or all, of a path at which a value is found.
pub open spec fn beginnings(forest: Seq<TreeView>) -> Set<Seq<Seq<char>>> {
    Set::new(|path: Seq<Seq<char>>| path.len() > 0 && leads_to_value(forest, path))
}

/// The paths of the listing, in its order.
pub open spec fn listed_paths(forest: Seq<TreeView>) -> Seq<Seq<Seq<char>>> {
    Seq::new(forest_entries(forest).len(), |i: int| forest_entries(forest)[i].path)
}

/// Where no two siblings share a name and no node is without value and
/// without children, the nodes are the beginnings of the paths that hold a
/// value, each once: there are as many rows as such beginnings, however
/// many of the paths share one.
pub proof fn lemma_rows_count_beginnings(forest: Seq<TreeView>, left: nat, glyphs: GlyphsView)
    requires
        distinct_names(forest),
        pruned(forest),
    ensures
        listed_paths(forest).to_set() == beginnings(forest),
        listed_paths(forest).no_duplicates(),
        beginnings(forest).finite(),
        forest_rows(forest, left, glyphs).len() == beginnings(forest).len(),
{
    let entries = forest_entries(forest);
    let paths = listed_paths(forest);
    lemma_one_row_per_node(forest, left, glyphs);
    lemma_paths_listed_once(forest);
    lemma_sibling_entries_lead(forest, 0, Seq::empty(), Seq::empty());
    lemma_sibling_entries_distinct(forest, 0, Seq::empty(), Seq::empty());
    assert(paths.no_duplicates()) by {
        assert forall|i: int, j: int|
            0 <= i < paths.len() && 0 <= j < paths.len() && i != j implies paths[i] != paths[j] by {
            if i < j {
                assert(entries[i].path != entries[j].path);
            } else {
                assert(entries[j].path != entries[i].path);
            }
        }
    }
    assert forall|path: Seq<Seq<char>>| paths.to_set().contains(path) == beginnings(
        forest,
    ).contains(path) by {
        if paths.to_set().contains(path) {
            let i = choose|i: int| 0 <= i < paths.len() && paths[i] == path;
            assert(entries[i].path == path);
            assert(path.skip(0) =~= path);
            assert(leads_to_value(forest, entries[i].path.skip(0)));
        }
        if beginnings(forest).contains(path) {
            let whole = choose|whole: Seq<Seq<char>>| #[trigger]
                is_prefix(path, whole) && forest_lookup(forest, whole) is Some;
            lemma_found_resolves(forest, whole);
            lemma_resolves_prefix(forest, whole, path.len() as int);
            lemma_node_is_listed(forest, path);
            let i = choose|i: int|
                0 <= i < entries.len() && (#[trigger] entries[i]).path == path && entries[i].slot
                    == forest_lookup(forest, path);
            assert(paths[i] == path);
        }
    }
    assert(paths.to_set() =~= beginnings(forest));
    paths.unique_seq_to_set();
    vstd::seq_lib::seq_to_set_is_finite(paths);
}

} // verus!
