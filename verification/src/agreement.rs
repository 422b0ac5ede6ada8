//! The two ways to the rows of the table agree: walking the tree gives the
//! rows that grouping its flat list of paths gives.

use vstd::prelude::*;
use crate::forest::{distinct_names, is_void, pruned, TreeView};
use crate::ranges::{
    any_deeper, deeper_prefix, first_ending, forest_flat, group_end, group_is_last, group_row,
    lemma_group_end, next_reaching, range_rows, same_group, sibling_flat, tree_flat, FlatView,
};
use crate::render::{
    child_prefix, forest_rows, row_of, sibling_rows, tree_rows, GlyphsView, RowView,
};
use crate::strings::spaces;

verus! {

/// A group ends at `target` if every row from `from` up to it belongs to
/// the group and the row at `target`, if there is one, does not.
proof fn lemma_group_end_is(
    rows: Seq<FlatView>,
    i: int,
    from: int,
    target: int,
    end: int,
    depth: nat,
)
    requires
        from <= target <= end,
        forall|x: int| from <= x < target ==> same_group(rows, i, x, depth),
        target < end ==> !same_group(rows, i, target, depth),
    ensures
        group_end(rows, i, from, end, depth) == target,
    decreases target - from,
{
    if from < target {
        lemma_group_end_is(rows, i, from + 1, target, end, depth);
    }
}

/// Where no path from `at` up to `j` ends at `depth`, none is found.
proof fn lemma_no_ending(rows: Seq<FlatView>, at: int, j: int, depth: nat)
    requires
        at <= j,
        forall|x: int| at <= x < j ==> (#[trigger] rows[x]).path.len() != depth + 1,
    ensures
        first_ending(rows, at, j, depth) == j,
    decreases j - at,
{
    if at < j {
        lemma_no_ending(rows, at + 1, j, depth);
    }
}

/// Where no path from `at` up to `j` goes deeper than `depth`, none is
/// found.
proof fn lemma_none_deeper(rows: Seq<FlatView>, at: int, j: int, depth: nat)
    requires
        forall|x: int| at <= x < j ==> (#[trigger] rows[x]).path.len() <= depth + 1,
    ensures
        !any_deeper(rows, at, j, depth),
    decreases j - at,
{
    if at < j {
        lemma_none_deeper(rows, at + 1, j, depth);
    }
}

/// Where a path from `at` up to `j` goes deeper than `depth`, one is found.
proof fn lemma_one_deeper(rows: Seq<FlatView>, at: int, x: int, j: int, depth: nat)
    requires
        at <= x < j,
        rows[x].path.len() > depth + 1,
    ensures
        any_deeper(rows, at, j, depth),
    decreases x - at,
{
    if at < x && rows[at].path.len() <= depth + 1 {
        lemma_one_deeper(rows, at + 1, x, j, depth);
    }
}

/// The paths of the listing of a tree go through the tree's top, and the
/// listing is not empty where the tree keeps no void node.
proof fn lemma_tree_flat_shape(t: TreeView, above: Seq<Seq<char>>)
    requires
        !is_void(t),
        pruned(t.children),
    ensures
        tree_flat(t, above).len() >= 1,
        forall|i: int|
            0 <= i < tree_flat(t, above).len() ==> {
                let path = (#[trigger] tree_flat(t, above)[i]).path;
                &&& path.len() > above.len()
                &&& path.take(above.len() as int) == above
                &&& path[above.len() as int] == t.segment
                &&& (i > 0 || t.slot is None) ==> path.len() > above.len() + 1
            },
        t.slot is Some ==> tree_flat(t, above)[0].path.len() == above.len() + 1,
        (t.children.len() == 0) == (sibling_flat(t.children, 0, above.push(t.segment)).len() == 0),
    decreases t, 0nat,
{
    let here = above.push(t.segment);
    let all = tree_flat(t, above);
    let lower = sibling_flat(t.children, 0, here);
    lemma_sibling_flat_shape(t.children, 0, here);
    let head = all.len() - lower.len();
    assert(here.take(above.len() as int) =~= above);
    assert forall|i: int| 0 <= i < all.len() implies ({
        let path = (#[trigger] all[i]).path;
        &&& path.len() > above.len()
        &&& path.take(above.len() as int) == above
        &&& path[above.len() as int] == t.segment
        &&& (i > 0 || t.slot is None) ==> path.len() > above.len() + 1
    }) by {
        if i >= head {
            let path = lower[i - head].path;
            assert(all[i] == lower[i - head]);
            assert(path.take(here.len() as int) == here);
            assert(path.take(above.len() as int) =~= path.take(here.len() as int).take(
                above.len() as int,
            ));
            assert(path[above.len() as int] == path.take(here.len() as int)[above.len() as int]);
        }
    }
}

/// The paths of the listing of siblings go through one of them, and the
/// listing is not empty where there is a sibling and none is void.
proof fn lemma_sibling_flat_shape(forest: Seq<TreeView>, k: nat, above: Seq<Seq<char>>)
    requires
        pruned(forest),
    ensures
        k < forest.len() ==> sibling_flat(forest, k, above).len() >= 1,
        k >= forest.len() ==> sibling_flat(forest, k, above).len() == 0,
        forall|i: int|
            0 <= i < sibling_flat(forest, k, above).len() ==> {
                let path = (#[trigger] sibling_flat(forest, k, above)[i]).path;
                &&& path.len() > above.len()
                &&& path.take(above.len() as int) == above
                &&& exists|j: int|
                    k <= j < forest.len() && path[above.len() as int] == forest[j].segment
            },
    decreases forest, forest.len() - k,
{
    if k < forest.len() {
        let t = forest[k as int];
        assert(!is_void(t) && pruned(t.children));
        let first = tree_flat(t, above);
        let later = sibling_flat(forest, k + 1, above);
        let all = sibling_flat(forest, k, above);
        lemma_tree_flat_shape(t, above);
        lemma_sibling_flat_shape(forest, k + 1, above);
        assert forall|i: int| 0 <= i < all.len() implies ({
            let path = (#[trigger] all[i]).path;
            &&& path.len() > above.len()
            &&& path.take(above.len() as int) == above
            &&& exists|j: int| k <= j < forest.len() && path[above.len() as int] == forest[j].segment
        }) by {
            if i < first.len() {
                assert(all[i] == first[i]);
                assert(first[i].path[above.len() as int] == forest[k as int].segment);
            } else {
                assert(all[i] == later[i - first.len()]);
                let path = later[i - first.len()].path;
                let j = choose|j: int|
                    k + 1 <= j < forest.len() && path[above.len() as int] == forest[j].segment;
                assert(k <= j < forest.len() && path[above.len() as int] == forest[j].segment);
            }
        }
    }
}

/// Where the rows from `s` on are the listing of the siblings from `k` on,
/// grouping them gives the rows of the siblings, drawn with the same
/// glyphs, where the list's prefix is the left margin and the tree's
/// prefix.
#[verifier::rlimit(80)]
#[verifier::spinoff_prover]
proof fn lemma_range_of_siblings(
    rows: Seq<FlatView>,
    s: int,
    forest: Seq<TreeView>,
    k: nat,
    above: Seq<Seq<char>>,
    lead: Seq<char>,
    prefix: Seq<char>,
    left: nat,
    glyphs: GlyphsView,
)
    requires
        distinct_names(forest),
        pruned(forest),
        0 <= s,
        s + sibling_flat(forest, k, above).len() <= rows.len(),
        forall|i: int|
            0 <= i < sibling_flat(forest, k, above).len() ==> rows[s + i] == sibling_flat(
                forest,
                k,
                above,
            )[i],
        lead == spaces(left) + prefix,
        above.len() == 0 ==> prefix == Seq::<char>::empty(),
    ensures
        range_rows(rows, s, s + sibling_flat(forest, k, above).len(), above.len(), lead, glyphs)
            == sibling_rows(forest, k, above.len(), prefix, left, glyphs),
    decreases forest, forest.len() - k,
{
    let depth = above.len();
    let block = sibling_flat(forest, k, above);
    let e = s + block.len();
    lemma_sibling_flat_shape(forest, k, above);
    if k < forest.len() {
        let t = forest[k as int];
        let here = above.push(t.segment);
        let own = tree_flat(t, above);
        let lower = sibling_flat(t.children, 0, here);
        let rest = sibling_flat(forest, k + 1, above);
        let j = s + own.len();
        assert(!is_void(t) && pruned(t.children) && distinct_names(t.children));
        lemma_tree_flat_shape(t, above);
        lemma_sibling_flat_shape(forest, k + 1, above);
        lemma_sibling_flat_shape(t.children, 0, here);
        assert(block == own + rest);
        assert forall|x: int| s <= x < j implies rows[x] == own[x - s] by {
            assert(rows[s + (x - s)] == block[x - s]);
        }
        assert forall|x: int| j <= x < e implies rows[x] == rest[x - j] by {
            assert(rows[s + (x - s)] == block[x - s]);
        }
        assert(rows[s] == own[0]);

        // the group of the first row is the listing of the first sibling
        assert forall|x: int| s + 1 <= x < j implies same_group(rows, s, x, depth) by {
            assert(rows[x] == own[x - s]);
        }
        if j < e {
            let path = rest[0].path;
            assert(rows[j] == rest[0]);
            let other = choose|other: int|
                k + 1 <= other < forest.len() && path[depth as int] == forest[other].segment;
            assert(forest[k as int].segment != forest[other].segment);
            assert(!same_group(rows, s, j, depth));
        }
        lemma_group_end_is(rows, s, s + 1, j, e, depth);
        assert(group_end(rows, s, s + 1, e, depth) == j);

        // it is the last group exactly if the sibling is the last
        let is_last = group_is_last(rows, s, j, e, depth);
        assert(next_reaching(rows, j, e, depth) == j);
        assert(is_last == (k + 1 == forest.len())) by {
            if j < e {
                assert(rows[j] == rest[0]);
                assert(rows[j].path.take(depth as int) == rows[s].path.take(depth as int));
            }
        }

        // the row of the group is the row of the sibling
        let row = group_row(rows, s, j, depth, is_last, lead, glyphs);
        assert(row == row_of(t, depth, is_last, prefix, left, glyphs)) by {
            if t.slot is Some {
                assert(first_ending(rows, s, j, depth) == s);
            } else {
                assert forall|x: int| s <= x < j implies (#[trigger] rows[x]).path.len() != depth
                    + 1 by {
                    assert(rows[x] == own[x - s]);
                }
                lemma_no_ending(rows, s, j, depth);
            }
            assert(row.label =~= row_of(t, depth, is_last, prefix, left, glyphs).label);
        }

        // what goes deeper in the group is the listing of the children
        let below = child_prefix(prefix, depth, is_last, glyphs);
        let lead_below = deeper_prefix(lead, depth, is_last, glyphs);
        assert(lead_below =~= spaces(left) + below);
        let inner = if any_deeper(rows, s, j, depth) {
            range_rows(rows, s, j, depth + 1, lead_below, glyphs)
        } else {
            Seq::empty()
        };
        assert(inner == sibling_rows(t.children, 0, depth + 1, below, left, glyphs)) by {
            let head = own.len() - lower.len();
            assert forall|i: int| 0 <= i < lower.len() implies rows[s + head + i] == lower[i] by {
                assert(rows[s + head + i] == own[head + i]);
            }
            if t.children.len() == 0 {
                assert forall|x: int| s <= x < j implies (#[trigger] rows[x]).path.len() <= depth
                    + 1 by {
                    assert(rows[x] == own[x - s]);
                }
                lemma_none_deeper(rows, s, j, depth);
            } else {
                assert(rows[j - 1] == own[own.len() - 1]);
                lemma_one_deeper(rows, s, j - 1, j, depth);
                lemma_range_of_siblings(
                    rows,
                    s + head,
                    t.children,
                    0,
                    here,
                    lead_below,
                    below,
                    left,
                    glyphs,
                );
                if head == 1 {
                    lemma_group_end(rows, s, s + 1, e, depth);
                    assert(range_rows(rows, s, j, depth + 1, lead_below, glyphs) == range_rows(
                        rows,
                        s + 1,
                        j,
                        depth + 1,
                        lead_below,
                        glyphs,
                    ));
                }
            }
        }

        // what follows the group is the listing of the later siblings
        lemma_range_of_siblings(rows, j, forest, k + 1, above, lead, prefix, left, glyphs);
        let later = range_rows(rows, j, e, depth, lead, glyphs);
        assert(range_rows(rows, s, e, depth, lead, glyphs) == seq![row] + inner + later);
        assert(seq![row] + inner + later =~= (seq![row] + inner) + later);
        assert(tree_rows(t, depth, is_last, prefix, left, glyphs) == seq![row] + inner);
        assert(later == sibling_rows(forest, k + 1, depth, prefix, left, glyphs));
        assert(sibling_rows(forest, k, depth, prefix, left, glyphs) == tree_rows(
            t,
            depth,
            k + 1 == forest.len(),
            prefix,
            left,
            glyphs,
        ) + sibling_rows(forest, k + 1, depth, prefix, left, glyphs));
    } else {
        assert(block.len() == 0);
        assert(range_rows(rows, s, e, depth, lead, glyphs) == Seq::<RowView>::empty());
        assert(sibling_rows(forest, k, depth, prefix, left, glyphs) == Seq::<RowView>::empty());
    }
}

/// Grouping the flat list of a tree's paths gives the rows that walking the
/// tree gives, where both draw with the same glyphs, the list's prefix is
/// the tree's left margin, no two siblings share a name and no node is
/// without value and without children.
pub proof fn lemma_ranges_agree_with_tree(forest: Seq<TreeView>, left: nat, glyphs: GlyphsView)
    requires
        distinct_names(forest),
        pruned(forest),
    ensures
        range_rows(
            forest_flat(forest),
            0,
            forest_flat(forest).len() as int,
            0,
            spaces(left),
            glyphs,
        ) == forest_rows(forest, left, glyphs),
{
    assert(spaces(left) + Seq::<char>::empty() =~= spaces(left));
    lemma_range_of_siblings(
        forest_flat(forest),
        0,
        forest,
        0,
        Seq::empty(),
        spaces(left),
        Seq::empty(),
        left,
        glyphs,
    );
}

} // verus!
