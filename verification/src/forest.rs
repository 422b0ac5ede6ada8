//! The dashboard's tree as a mathematical value, and what `put`, `pop` and
//! `lookup` mean on it.

use vstd::prelude::*;
use crate::slot::SlotView;

verus! {

/// A node with everything below it: the path segment that names it, the
/// value put exactly at its path, if any, and its children in the order in
/// which they were first created.
pub struct TreeView {
    pub segment: Seq<char>,
    pub slot: Option<SlotView>,
    pub children: Seq<TreeView>,
}

/// A node without value and without children.
pub open spec fn bare(segment: Seq<char>) -> TreeView {
    TreeView { segment, slot: None, children: Seq::empty() }
}

/// A node that nothing keeps alive: it has neither a value nor children.
pub open spec fn is_void(t: TreeView) -> bool {
    t.slot is None && t.children.len() == 0
}

/// The first position at or after `start` whose node is named `segment`;
/// `forest.len()` if there is none.
pub open spec fn find_from(forest: Seq<TreeView>, segment: Seq<char>, start: int) -> int
    decreases forest.len() - start,
{
    if start < 0 || start >= forest.len() {
        forest.len() as int
    } else if forest[start].segment == segment {
        start
    } else {
        find_from(forest, segment, start + 1)
    }
}

/// The position of the node named `segment` among siblings; `forest.len()`
/// if there is none.
pub open spec fn find(forest: Seq<TreeView>, segment: Seq<char>) -> int {
    find_from(forest, segment, 0)
}

/// The value stored exactly at `path`, if the path leads to a node that
/// holds one.
pub open spec fn forest_lookup(forest: Seq<TreeView>, path: Seq<Seq<char>>) -> Option<SlotView>
    decreases path.len(),
{
    if path.len() == 0 {
        None
    } else {
        let i = find(forest, path[0]);
        if i >= forest.len() {
            None
        } else if path.len() == 1 {
            forest[i].slot
        } else {
            forest_lookup(forest[i].children, path.skip(1))
        }
    }
}

/// Whether every segment of `path` names a node, one below the other.
pub open spec fn resolves(forest: Seq<TreeView>, path: Seq<Seq<char>>) -> bool
    decreases path.len(),
{
    if path.len() == 0 {
        false
    } else {
        let i = find(forest, path[0]);
        i < forest.len() && (path.len() == 1 || resolves(forest[i].children, path.skip(1)))
    }
}

/// The forest after `slot` was stored at `path`: the nodes along the path
/// that were missing are appended as last children, the value of the last
/// node is replaced, and nothing else moves. The empty path changes nothing.
pub open spec fn forest_put(forest: Seq<TreeView>, path: Seq<Seq<char>>, slot: SlotView) -> Seq<
    TreeView,
>
    decreases path.len(),
{
    if path.len() == 0 {
        forest
    } else {
        let i = find(forest, path[0]);
        let node = if i < forest.len() {
            forest[i]
        } else {
            bare(path[0])
        };
        let next = if path.len() == 1 {
            TreeView { slot: Some(slot), ..node }
        } else {
            TreeView { children: forest_put(node.children, path.skip(1), slot), ..node }
        };
        if i < forest.len() {
            forest.update(i, next)
        } else {
            forest.push(next)
        }
    }
}

/// The forest after the value at `path` was removed: the last node of the
/// path loses its value, and each node of the path that is then left without
/// value and without children leaves its parent, from the bottom up. A path
/// whose first segment names no node changes nothing.
pub open spec fn forest_pop(forest: Seq<TreeView>, path: Seq<Seq<char>>) -> Seq<TreeView>
    decreases path.len(),
{
    if path.len() == 0 {
        forest
    } else {
        let i = find(forest, path[0]);
        if i >= forest.len() {
            forest
        } else {
            let node = forest[i];
            let next = if path.len() == 1 {
                TreeView { slot: None, ..node }
            } else {
                TreeView { children: forest_pop(node.children, path.skip(1)), ..node }
            };
            if is_void(next) {
                forest.remove(i)
            } else {
                forest.update(i, next)
            }
        }
    }
}

/// No two siblings share a name, at any level.
pub open spec fn distinct_names(forest: Seq<TreeView>) -> bool
    decreases forest,
{
    &&& forall|i: int, j: int|
        0 <= i < j < forest.len() ==> #[trigger] forest[i].segment != #[trigger] forest[j].segment
    &&& forall|i: int| 0 <= i < forest.len() ==> distinct_names(#[trigger] forest[i].children)
}

/// Every node holds a value or has children, at any level: no node is kept
/// that nothing keeps alive.
pub open spec fn pruned(forest: Seq<TreeView>) -> bool
    decreases forest,
{
    forall|i: int|
        0 <= i < forest.len() ==> !is_void(#[trigger] forest[i]) && pruned(forest[i].children)
}

/// `find_from` returns the first match: a position before which nothing is
/// named `segment`, and which is a match or the end.
pub proof fn lemma_find_first(forest: Seq<TreeView>, segment: Seq<char>, start: int, i: int)
    requires
        0 <= start <= i <= forest.len(),
        forall|j: int| start <= j < i ==> (#[trigger] forest[j]).segment != segment,
        i < forest.len() ==> forest[i].segment == segment,
    ensures
        find_from(forest, segment, start) == i,
    decreases i - start,
{
    if start < i {
        lemma_find_first(forest, segment, start + 1, i);
    }
}

/// What `find_from` returns: the first match at or after `start`, or the end.
pub proof fn lemma_find_from(forest: Seq<TreeView>, segment: Seq<char>, start: int)
    requires
        0 <= start <= forest.len(),
    ensures
        start <= find_from(forest, segment, start) <= forest.len(),
        find_from(forest, segment, start) < forest.len() ==> forest[find_from(
            forest,
            segment,
            start,
        )].segment == segment,
        forall|j: int|
            start <= j < find_from(forest, segment, start) ==> (#[trigger] forest[j]).segment
                != segment,
    decreases forest.len() - start,
{
    if start < forest.len() && forest[start].segment != segment {
        lemma_find_from(forest, segment, start + 1);
    }
}

/// What `find` returns: the first node named `segment`, or the end.
pub proof fn lemma_find(forest: Seq<TreeView>, segment: Seq<char>)
    ensures
        0 <= find(forest, segment) <= forest.len(),
        find(forest, segment) < forest.len() ==> forest[find(forest, segment)].segment == segment,
        forall|j: int|
            0 <= j < find(forest, segment) ==> (#[trigger] forest[j]).segment != segment,
{
    lemma_find_from(forest, segment, 0);
}

/// The siblings with a node named `segment` among them: as they are, where
/// there is one, else with a bare one appended.
pub open spec fn with_node(forest: Seq<TreeView>, segment: Seq<char>) -> Seq<TreeView> {
    if find(forest, segment) < forest.len() {
        forest
    } else {
        forest.push(bare(segment))
    }
}

/// `forest_put`, told in two steps: make sure the first segment names a
/// node, then change that node.
pub proof fn lemma_put_steps(forest: Seq<TreeView>, path: Seq<Seq<char>>, slot: SlotView)
    requires
        path.len() > 0,
    ensures
        ({
            let ready = with_node(forest, path[0]);
            let i = find(ready, path[0]);
            &&& 0 <= i < ready.len()
            &&& i == find(forest, path[0])
            &&& forest_put(forest, path, slot) == ready.update(
                i,
                if path.len() == 1 {
                    TreeView { slot: Some(slot), ..ready[i] }
                } else {
                    TreeView {
                        children: forest_put(ready[i].children, path.skip(1), slot),
                        ..ready[i]
                    }
                },
            )
        }),
{
    lemma_find(forest, path[0]);
    let ready = with_node(forest, path[0]);
    let i = find(forest, path[0]);
    if i >= forest.len() {
        lemma_find_first(ready, path[0], 0, i);
    }
    lemma_find(ready, path[0]);
    let next = if path.len() == 1 {
        TreeView { slot: Some(slot), ..ready[i] }
    } else {
        TreeView { children: forest_put(ready[i].children, path.skip(1), slot), ..ready[i] }
    };
    assert(forest_put(forest, path, slot) =~= ready.update(i, next));
}

/// Storing a value at a non-empty path leaves at least one node.
pub proof fn lemma_put_len(forest: Seq<TreeView>, path: Seq<Seq<char>>, slot: SlotView)
    requires
        path.len() > 0,
    ensures
        forest_put(forest, path, slot).len() >= 1,
        forest_put(forest, path, slot).len() >= forest.len(),
{
    lemma_find(forest, path[0]);
}

/// `put` keeps sibling names distinct.
pub proof fn lemma_put_keeps_distinct(forest: Seq<TreeView>, path: Seq<Seq<char>>, slot: SlotView)
    requires
        distinct_names(forest),
    ensures
        distinct_names(forest_put(forest, path, slot)),
    decreases path.len(),
{
    if path.len() > 0 {
        lemma_find(forest, path[0]);
        let i = find(forest, path[0]);
        let node = if i < forest.len() {
            forest[i]
        } else {
            bare(path[0])
        };
        if path.len() > 1 {
            assert(distinct_names(node.children));
            lemma_put_keeps_distinct(node.children, path.skip(1), slot);
        }
        let after = forest_put(forest, path, slot);
        assert forall|a: int, b: int| 0 <= a < b < after.len() implies #[trigger] after[a].segment
            != #[trigger] after[b].segment by {
            if b < forest.len() {
                assert(forest[a].segment != forest[b].segment);
            } else {
                assert(forest[a].segment != path[0]);
            }
        }
        assert forall|a: int| 0 <= a < after.len() implies distinct_names(
            #[trigger] after[a].children,
        ) by {
            if a != i {
                assert(distinct_names(forest[a].children));
            }
        }
    }
}

/// `put` leaves no node without value and without children.
pub proof fn lemma_put_keeps_pruned(forest: Seq<TreeView>, path: Seq<Seq<char>>, slot: SlotView)
    requires
        pruned(forest),
    ensures
        pruned(forest_put(forest, path, slot)),
    decreases path.len(),
{
    if path.len() > 0 {
        lemma_find(forest, path[0]);
        let i = find(forest, path[0]);
        let node = if i < forest.len() {
            forest[i]
        } else {
            bare(path[0])
        };
        if path.len() > 1 {
            assert(pruned(node.children));
            lemma_put_keeps_pruned(node.children, path.skip(1), slot);
            lemma_put_len(node.children, path.skip(1), slot);
        }
        let after = forest_put(forest, path, slot);
        assert forall|a: int| 0 <= a < after.len() implies !is_void(#[trigger] after[a]) && pruned(
            after[a].children,
        ) by {
            if a != i {
                assert(!is_void(forest[a]) && pruned(forest[a].children));
            }
        }
    }
}

/// `pop` keeps sibling names distinct.
pub proof fn lemma_pop_keeps_distinct(forest: Seq<TreeView>, path: Seq<Seq<char>>)
    requires
        distinct_names(forest),
    ensures
        distinct_names(forest_pop(forest, path)),
    decreases path.len(),
{
    if path.len() > 0 {
        lemma_find(forest, path[0]);
        let i = find(forest, path[0]);
        if i < forest.len() {
            if path.len() > 1 {
                assert(distinct_names(forest[i].children));
                lemma_pop_keeps_distinct(forest[i].children, path.skip(1));
            }
            let after = forest_pop(forest, path);
            let gone = after.len() < forest.len();
            assert forall|a: int, b: int| 0 <= a < b < after.len() implies 
                #[trigger] after[a].segment != #[trigger] after[b].segment by {
                let fa = if gone && a >= i {
                    a + 1
                } else {
                    a
                };
                let fb = if gone && b >= i {
                    b + 1
                } else {
                    b
                };
                assert(forest[fa].segment != forest[fb].segment);
            }
            assert forall|a: int| 0 <= a < after.len() implies distinct_names(
                #[trigger] after[a].children,
            ) by {
                let fa = if gone && a >= i {
                    a + 1
                } else {
                    a
                };
                assert(distinct_names(forest[fa].children));
            }
        }
    }
}

/// `pop` leaves no node without value and without children.
pub proof fn lemma_pop_keeps_pruned(forest: Seq<TreeView>, path: Seq<Seq<char>>)
    requires
        pruned(forest),
    ensures
        pruned(forest_pop(forest, path)),
    decreases path.len(),
{
    if path.len() > 0 {
        lemma_find(forest, path[0]);
        let i = find(forest, path[0]);
        if i < forest.len() {
            if path.len() > 1 {
                assert(pruned(forest[i].children));
                lemma_pop_keeps_pruned(forest[i].children, path.skip(1));
            }
            let after = forest_pop(forest, path);
            let gone = after.len() < forest.len();
            assert forall|a: int| 0 <= a < after.len() implies !is_void(#[trigger] after[a])
                && pruned(after[a].children) by {
                let fa = if gone && a >= i {
                    a + 1
                } else {
                    a
                };
                assert(!is_void(forest[fa]) && pruned(forest[fa].children));
            }
        }
    }
}

/// In a forest that keeps no void node, popping a path that does not lead to
/// a node changes nothing.
pub proof fn lemma_pop_unresolved(forest: Seq<TreeView>, path: Seq<Seq<char>>)
    requires
        pruned(forest),
        !resolves(forest, path),
    ensures
        forest_pop(forest, path) == forest,
    decreases path.len(),
{
    if path.len() > 0 {
        lemma_find(forest, path[0]);
        let i = find(forest, path[0]);
        if i < forest.len() {
            assert(!is_void(forest[i]) && pruned(forest[i].children));
            lemma_pop_unresolved(forest[i].children, path.skip(1));
            assert(forest_pop(forest, path) =~= forest);
        }
    }
}

} // verus!
