//! What holds of `put`, `pop` and `lookup`, whatever the forest.

use vstd::prelude::*;
use crate::forest::{
    bare, distinct_names, find, forest_lookup, forest_pop, forest_put, is_void, lemma_find,
    lemma_find_first, pruned, resolves, TreeView,
};
use crate::slot::SlotView;

verus! {

/// Two forests have the same nodes in the same places: they differ at most
/// in the values that the nodes hold.
pub open spec fn same_places(a: Seq<TreeView>, b: Seq<TreeView>) -> bool
    decreases a,
{
    &&& a.len() == b.len()
    &&& forall|i: int|
        0 <= i < a.len() ==> (#[trigger] a[i]).segment == b[i].segment && same_places(
            a[i].children,
            b[i].children,
        )
}

/// Every forest has the same nodes in the same places as itself.
pub proof fn lemma_same_places_reflexive(forest: Seq<TreeView>)
    ensures
        same_places(forest, forest),
    decreases forest,
{
    assert forall|i: int| 0 <= i < forest.len() implies (#[trigger] forest[i]).segment
        == forest[i].segment && same_places(forest[i].children, forest[i].children) by {
        lemma_same_places_reflexive(forest[i].children);
    }
}

/// A value that was put at a path is found there.
pub proof fn lemma_put_then_lookup(forest: Seq<TreeView>, path: Seq<Seq<char>>, slot: SlotView)
    requires
        path.len() > 0,
    ensures
        forest_lookup(forest_put(forest, path, slot), path) == Some(slot),
    decreases path.len(),
{
    lemma_find(forest, path[0]);
    let i = find(forest, path[0]);
    let after = forest_put(forest, path, slot);
    lemma_find_first(after, path[0], 0, i);
    if path.len() > 1 {
        let node = if i < forest.len() {
            forest[i]
        } else {
            bare(path[0])
        };
        lemma_put_then_lookup(node.children, path.skip(1), slot);
    }
}

/// A put changes nothing at any other path.
pub proof fn lemma_put_keeps_others(
    forest: Seq<TreeView>,
    path: Seq<Seq<char>>,
    slot: SlotView,
    other: Seq<Seq<char>>,
)
    requires
        other != path,
    ensures
        forest_lookup(forest_put(forest, path, slot), other) == forest_lookup(forest, other),
    decreases path.len(),
{
    if path.len() > 0 && other.len() > 0 {
        lemma_find(forest, path[0]);
        lemma_find(forest, other[0]);
        let i = find(forest, path[0]);
        let j = find(forest, other[0]);
        let after = forest_put(forest, path, slot);
        if other[0] == path[0] {
            lemma_find_first(after, other[0], 0, i);
            let node = if i < forest.len() {
                forest[i]
            } else {
                bare(path[0])
            };
            if path.len() > 1 && other.len() > 1 {
                assert(other.skip(1) != path.skip(1)) by {
                    if other.skip(1) == path.skip(1) {
                        assert(other =~= seq![other[0]] + other.skip(1));
                        assert(path =~= seq![path[0]] + path.skip(1));
                    }
                }
                lemma_put_keeps_others(node.children, path.skip(1), slot, other.skip(1));
            } else if path.len() == 1 && other.len() == 1 {
                assert(other =~= path);
            } else if other.len() > 1 {
                lemma_find(node.children, other[1]);
                assert(other.skip(1)[0] == other[1]);
            }
        } else if j < forest.len() {
            lemma_find_first(after, other[0], 0, j);
        } else {
            lemma_find_first(after, other[0], 0, after.len() as int);
        }
    }
}

/// A second put at the same path replaces the value of the first and
/// leaves nothing else of it: no node is made twice.
pub proof fn lemma_put_twice(
    forest: Seq<TreeView>,
    path: Seq<Seq<char>>,
    first: SlotView,
    second: SlotView,
)
    ensures
        forest_put(forest_put(forest, path, first), path, second) == forest_put(
            forest,
            path,
            second,
        ),
    decreases path.len(),
{
    if path.len() > 0 {
        lemma_find(forest, path[0]);
        let i = find(forest, path[0]);
        let once = forest_put(forest, path, first);
        lemma_find_first(once, path[0], 0, i);
        let node = if i < forest.len() {
            forest[i]
        } else {
            bare(path[0])
        };
        if path.len() > 1 {
            lemma_put_twice(node.children, path.skip(1), first, second);
        }
        assert(forest_put(once, path, second) =~= forest_put(forest, path, second));
    }
}

/// A put at a path whose nodes all exist makes no node and moves none:
/// every node keeps its place among its siblings.
pub proof fn lemma_put_keeps_places(forest: Seq<TreeView>, path: Seq<Seq<char>>, slot: SlotView)
    requires
        resolves(forest, path),
    ensures
        same_places(forest_put(forest, path, slot), forest),
    decreases path.len(),
{
    lemma_find(forest, path[0]);
    let i = find(forest, path[0]);
    let after = forest_put(forest, path, slot);
    if path.len() > 1 {
        lemma_put_keeps_places(forest[i].children, path.skip(1), slot);
    } else {
        lemma_same_places_reflexive(forest[i].children);
    }
    assert forall|k: int| 0 <= k < after.len() implies (#[trigger] after[k]).segment
        == forest[k].segment && same_places(after[k].children, forest[k].children) by {
        if k != i {
            lemma_same_places_reflexive(forest[k].children);
        }
    }
}

/// After a pop nothing is found at the path.
pub proof fn lemma_pop_then_lookup(forest: Seq<TreeView>, path: Seq<Seq<char>>)
    requires
        distinct_names(forest),
    ensures
        forest_lookup(forest_pop(forest, path), path) is None,
    decreases path.len(),
{
    if path.len() > 0 {
        lemma_find(forest, path[0]);
        let i = find(forest, path[0]);
        let after = forest_pop(forest, path);
        if i < forest.len() {
            if path.len() > 1 {
                lemma_pop_then_lookup(forest[i].children, path.skip(1));
            }
            if after.len() < forest.len() {
                assert forall|k: int| 0 <= k < after.len() implies (#[trigger] after[k]).segment
                    != path[0] by {
                    let from = if k < i {
                        k
                    } else {
                        k + 1
                    };
                    assert(after[k] == forest[from]);
                    if from > i {
                        assert(forest[i].segment != forest[from].segment);
                    }
                }
                lemma_find_first(after, path[0], 0, after.len() as int);
            } else {
                lemma_find_first(after, path[0], 0, i);
            }
        }
    }
}

/// Where a node was taken out of a list of siblings with distinct names,
/// a name is found where it was, one place earlier if it stood behind the
/// node; the node's own name is found no more.
proof fn lemma_find_after_removal(forest: Seq<TreeView>, i: int, segment: Seq<char>)
    requires
        distinct_names(forest),
        0 <= i < forest.len(),
    ensures
        ({
            let j = find(forest, segment);
            let after = forest.remove(i);
            find(after, segment) == if j == i || j >= forest.len() {
                after.len() as int
            } else if j < i {
                j
            } else {
                j - 1
            }
        }),
{
    lemma_find(forest, segment);
    let j = find(forest, segment);
    let after = forest.remove(i);
    let to = if j == i || j >= forest.len() {
        after.len() as int
    } else if j < i {
        j
    } else {
        j - 1
    };
    assert forall|k: int| 0 <= k < to implies (#[trigger] after[k]).segment != segment by {
        let from = if k < i {
            k
        } else {
            k + 1
        };
        assert(after[k] == forest[from]);
        if j == i && from != i {
            if from < i {
                assert(forest[from].segment != forest[i].segment);
            } else {
                assert(forest[i].segment != forest[from].segment);
            }
        }
    }
    if to < after.len() {
        assert(after[to] == forest[j]);
    }
    lemma_find_first(after, segment, 0, to);
}

/// Nothing is found in a forest without nodes.
proof fn lemma_lookup_in_nothing(path: Seq<Seq<char>>)
    ensures
        forest_lookup(Seq::<TreeView>::empty(), path) is None,
{
    if path.len() > 0 {
        lemma_find(Seq::<TreeView>::empty(), path[0]);
    }
}

/// A pop takes no value from any other path: a node that holds a value
/// stays, and so does every node above it.
pub proof fn lemma_pop_keeps_others(
    forest: Seq<TreeView>,
    path: Seq<Seq<char>>,
    other: Seq<Seq<char>>,
)
    requires
        distinct_names(forest),
        other != path,
    ensures
        forest_lookup(forest_pop(forest, path), other) == forest_lookup(forest, other),
    decreases path.len(),
{
    if path.len() > 0 && other.len() > 0 {
        lemma_find(forest, path[0]);
        lemma_find(forest, other[0]);
        let i = find(forest, path[0]);
        let j = find(forest, other[0]);
        let after = forest_pop(forest, path);
        if i < forest.len() {
            let node = forest[i];
            let next = if path.len() == 1 {
                TreeView { slot: None, ..node }
            } else {
                TreeView { children: forest_pop(node.children, path.skip(1)), ..node }
            };
            let gone = is_void(next);
            if gone {
                assert(after == forest.remove(i));
                lemma_find_after_removal(forest, i, other[0]);
            } else {
                assert(after == forest.update(i, next));
                lemma_find_first(after, other[0], 0, j);
            }
            if other[0] == path[0] {
                assert(j == i);
                // what a lookup of `other` finds in the node before and after
                let before_below = tree_value(node, other);
                let after_below = tree_value(next, other);
                assert(forest_lookup(forest, other) == before_below);
                assert(before_below == after_below) by {
                    if other.len() == 1 {
                        if path.len() == 1 {
                            assert(other =~= path);
                        }
                    } else if path.len() > 1 {
                        assert(other.skip(1) != path.skip(1)) by {
                            if other.skip(1) == path.skip(1) {
                                assert(other =~= seq![other[0]] + other.skip(1));
                                assert(path =~= seq![path[0]] + path.skip(1));
                            }
                        }
                        assert(distinct_names(node.children));
                        lemma_pop_keeps_others(node.children, path.skip(1), other.skip(1));
                    }
                }
                if gone {
                    assert(forest_lookup(after, other) is None);
                    if other.len() > 1 {
                        assert(next.children =~= Seq::<TreeView>::empty());
                        lemma_lookup_in_nothing(other.skip(1));
                    }
                    assert(after_below is None);
                } else {
                    assert(forest_lookup(after, other) == after_below);
                }
            } else if j < forest.len() {
                let to = if !gone || j < i {
                    j
                } else {
                    j - 1
                };
                assert(find(after, other[0]) == to);
                assert(after[to] == forest[j]);
            }
        }
    }
}

/// Whether the path `short` is the beginning of the path `long`, or all of
/// it.
pub open spec fn is_prefix(short: Seq<Seq<char>>, long: Seq<Seq<char>>) -> bool {
    short.len() <= long.len() && long.take(short.len() as int) == short
}

/// A path at which a value is found leads to a node.
pub proof fn lemma_found_resolves(forest: Seq<TreeView>, path: Seq<Seq<char>>)
    requires
        forest_lookup(forest, path) is Some,
    ensures
        resolves(forest, path),
    decreases path.len(),
{
    lemma_find(forest, path[0]);
    if path.len() > 1 {
        lemma_found_resolves(forest[find(forest, path[0])].children, path.skip(1));
    }
}

/// Where a path leads to a node, so does each of its beginnings.
pub proof fn lemma_resolves_prefix(forest: Seq<TreeView>, path: Seq<Seq<char>>, n: int)
    requires
        resolves(forest, path),
        0 < n <= path.len(),
    ensures
        resolves(forest, path.take(n)),
    decreases path.len(),
{
    let short = path.take(n);
    assert(short[0] == path[0]);
    if n > 1 {
        lemma_find(forest, path[0]);
        lemma_resolves_prefix(forest[find(forest, path[0])].children, path.skip(1), n - 1);
        assert(short.skip(1) =~= path.skip(1).take(n - 1));
    }
}

/// A pop removes no node off its path: a node stays unless the popped path
/// goes through it or ends at it.
pub proof fn lemma_pop_keeps_nodes_off_path(
    forest: Seq<TreeView>,
    path: Seq<Seq<char>>,
    node: Seq<Seq<char>>,
)
    requires
        distinct_names(forest),
        resolves(forest, node),
        !is_prefix(node, path),
    ensures
        resolves(forest_pop(forest, path), node),
    decreases path.len(),
{
    if path.len() > 0 {
        lemma_find(forest, path[0]);
        lemma_find(forest, node[0]);
        let i = find(forest, path[0]);
        let j = find(forest, node[0]);
        let after = forest_pop(forest, path);
        if i < forest.len() {
            let item = forest[i];
            let next = if path.len() == 1 {
                TreeView { slot: None, ..item }
            } else {
                TreeView { children: forest_pop(item.children, path.skip(1)), ..item }
            };
            if node[0] == path[0] {
                assert(node.len() > 1) by {
                    if node.len() == 1 {
                        assert(path.take(1) =~= node);
                    }
                }
                lemma_find(item.children, node[1]);
                assert(node.skip(1)[0] == node[1]);
                assert(resolves(item.children, node.skip(1)));
                assert(find(item.children, node[1]) < item.children.len());
                if path.len() > 1 {
                    assert(!is_prefix(node.skip(1), path.skip(1))) by {
                        if is_prefix(node.skip(1), path.skip(1)) {
                            assert(path.take(node.len() as int) =~= seq![path[0]] + path.skip(
                                1,
                            ).take(node.len() - 1));
                            assert(node =~= seq![node[0]] + node.skip(1));
                        }
                    }
                    assert(distinct_names(item.children));
                    lemma_pop_keeps_nodes_off_path(item.children, path.skip(1), node.skip(1));
                    lemma_find(next.children, node[1]);
                    assert(resolves(next.children, node.skip(1)));
                    assert(find(next.children, node[1]) < next.children.len());
                }
                assert(!is_void(next));
                assert(after == forest.update(i, next));
                lemma_find_first(after, node[0], 0, i);
            } else if is_void(next) {
                assert(after == forest.remove(i));
                lemma_find_after_removal(forest, i, node[0]);
                let to = if j < i {
                    j
                } else {
                    j - 1
                };
                assert(after[to] == forest[j]);
            } else {
                assert(after == forest.update(i, next));
                lemma_find_first(after, node[0], 0, j);
            }
        }
    }
}

/// A pop removes no node of its path that still has another child: where
/// the path goes through a node, or ends at it, and the node has a child
/// that the path does not go through, the node stays, and so does the
/// child.
pub proof fn lemma_pop_keeps_parents(
    forest: Seq<TreeView>,
    path: Seq<Seq<char>>,
    node: Seq<Seq<char>>,
    child: Seq<char>,
)
    requires
        distinct_names(forest),
        is_prefix(node, path),
        node.len() > 0,
        resolves(forest, node.push(child)),
        node.len() < path.len() ==> path[node.len() as int] != child,
    ensures
        resolves(forest_pop(forest, path), node),
        resolves(forest_pop(forest, path), node.push(child)),
{
    let lower = node.push(child);
    assert(!is_prefix(lower, path)) by {
        if is_prefix(lower, path) {
            assert(path.take(lower.len() as int)[node.len() as int] == child);
        }
    }
    lemma_pop_keeps_nodes_off_path(forest, path, lower);
    lemma_resolves_prefix(forest_pop(forest, path), lower, node.len() as int);
    assert(lower.take(node.len() as int) =~= node);
}

/// A pop removes no node that holds a value, but for the value it takes:
/// the node of any other path at which a value is found stays.
pub proof fn lemma_pop_keeps_holders(
    forest: Seq<TreeView>,
    path: Seq<Seq<char>>,
    node: Seq<Seq<char>>,
)
    requires
        distinct_names(forest),
        node != path,
        forest_lookup(forest, node) is Some,
    ensures
        resolves(forest_pop(forest, path), node),
{
    lemma_pop_keeps_others(forest, path, node);
    lemma_found_resolves(forest_pop(forest, path), node);
}

/// The node that `path` leads to.
pub open spec fn node_at(forest: Seq<TreeView>, path: Seq<Seq<char>>) -> TreeView
    decreases path.len(),
{
    if path.len() == 0 {
        bare(Seq::empty())
    } else if path.len() == 1 {
        forest[find(forest, path[0])]
    } else {
        node_at(forest[find(forest, path[0])].children, path.skip(1))
    }
}

/// Whether something keeps the `level`-th node of a path alive once the
/// value at the path's end is gone: a value of its own or a child that the
/// path does not go through; for the last node, any child.
pub open spec fn stays(forest: Seq<TreeView>, path: Seq<Seq<char>>, level: int) -> bool {
    let node = node_at(forest, path.take(level));
    if level == path.len() {
        node.children.len() > 0
    } else {
        node.slot is Some || node.children.len() > 1
    }
}

/// Whether something keeps a node of the path alive at `level` or below.
pub open spec fn held_from(forest: Seq<TreeView>, path: Seq<Seq<char>>, level: int) -> bool {
    exists|m: int| level <= m <= path.len() && #[trigger] stays(forest, path, m)
}

/// What keeps a node alive is told the same from one level down.
proof fn lemma_stays_below(forest: Seq<TreeView>, path: Seq<Seq<char>>, m: int)
    requires
        2 <= m <= path.len(),
    ensures
        stays(forest, path, m) == stays(
            forest[find(forest, path[0])].children,
            path.skip(1),
            m - 1,
        ),
{
    assert(path.take(m).skip(1) =~= path.skip(1).take(m - 1));
    assert(path.take(m)[0] == path[0]);
}

/// A pop removes exactly the nodes of its path that nothing keeps alive:
/// the node at a level of the path is still there after the pop if and
/// only if, at that level or below it, a node of the path has a value of
/// its own or a child off the path (or, for the last node, any child). So
/// the nodes below the lowest such level are gone, and those down to it
/// stay.
pub proof fn lemma_pop_removes_exactly(forest: Seq<TreeView>, path: Seq<Seq<char>>, level: int)
    requires
        distinct_names(forest),
        resolves(forest, path),
        1 <= level <= path.len(),
    ensures
        resolves(forest_pop(forest, path), path.take(level)) == held_from(forest, path, level),
    decreases path.len(),
{
    lemma_find(forest, path[0]);
    let i = find(forest, path[0]);
    let t = forest[i];
    let rest = path.skip(1);
    let next = if path.len() == 1 {
        TreeView { slot: None, ..t }
    } else {
        TreeView { children: forest_pop(t.children, rest), ..t }
    };
    let after = forest_pop(forest, path);
    let short = path.take(level);
    assert(short[0] == path[0]);
    assert(path.take(1) =~= seq![path[0]]);
    assert(stays(forest, path, 1) == (if path.len() == 1 {
        t.children.len() > 0
    } else {
        t.slot is Some || t.children.len() > 1
    }));
    // the first node of the path is found after the pop exactly if it is
    // not void then
    if is_void(next) {
        assert(after == forest.remove(i));
        lemma_find_after_removal(forest, i, path[0]);
    } else {
        assert(after == forest.update(i, next));
        lemma_find_first(after, path[0], 0, i);
    }
    assert((find(after, path[0]) < after.len()) == !is_void(next));
    if path.len() == 1 {
        assert(short =~= path);
        if held_from(forest, path, level) {
            let m = choose|m: int| level <= m <= path.len() && #[trigger] stays(forest, path, m);
            assert(m == 1);
        }
        if !is_void(next) {
            assert(stays(forest, path, 1));
        }
    } else {
        assert(distinct_names(t.children));
        assert(resolves(t.children, rest));
        lemma_find(t.children, rest[0]);
        lemma_pop_len(t.children, rest);
        let lower = forest_pop(t.children, rest);
        // what is held at the levels below the first is held one level
        // down in the children
        assert(held_from(forest, path, 2) == held_from(t.children, rest, 1)) by {
            if held_from(forest, path, 2) {
                let m = choose|m: int| 2 <= m <= path.len() && #[trigger] stays(forest, path, m);
                lemma_stays_below(forest, path, m);
                assert(stays(t.children, rest, m - 1));
            }
            if held_from(t.children, rest, 1) {
                let m = choose|m: int| 1 <= m <= rest.len() && #[trigger] stays(t.children, rest, m);
                lemma_stays_below(forest, path, m + 1);
                assert(stays(forest, path, m + 1));
            }
        }
        if level == 1 {
            lemma_pop_removes_exactly(t.children, rest, 1);
            assert(rest.take(1) =~= seq![rest[0]]);
            let child_stays = resolves(lower, rest.take(1));
            assert(child_stays == held_from(t.children, rest, 1));
            // the children are not empty after the pop exactly if there was
            // another child or the child on the path stays
            assert((lower.len() > 0) == (t.children.len() > 1 || child_stays)) by {
                lemma_find(lower, rest[0]);
                if child_stays {
                    assert(find(lower, rest.take(1)[0]) < lower.len());
                }
                if t.children.len() == 1 && lower.len() > 0 {
                    let j = find(t.children, rest[0]);
                    let item = t.children[j];
                    let below = if rest.len() == 1 {
                        TreeView { slot: None, ..item }
                    } else {
                        TreeView { children: forest_pop(item.children, rest.skip(1)), ..item }
                    };
                    assert(lower == t.children.update(j, below));
                    assert(lower[0].segment == rest[0]);
                    lemma_find_first(lower, rest[0], 0, 0);
                }
            }
            assert(short =~= seq![path[0]]);
            assert(resolves(after, short) == !is_void(next));
            assert(held_from(forest, path, 1) == (stays(forest, path, 1) || held_from(
                forest,
                path,
                2,
            ))) by {
                if held_from(forest, path, 1) {
                    let m = choose|m: int|
                        1 <= m <= path.len() && #[trigger] stays(forest, path, m);
                    if m >= 2 {
                        assert(held_from(forest, path, 2));
                    }
                }
                if held_from(forest, path, 2) {
                    let m = choose|m: int|
                        2 <= m <= path.len() && #[trigger] stays(forest, path, m);
                    assert(1 <= m <= path.len() && stays(forest, path, m));
                }
            }
        } else {
            lemma_pop_removes_exactly(t.children, rest, level - 1);
            assert(short.skip(1) =~= rest.take(level - 1));
            let deep = resolves(lower, rest.take(level - 1));
            assert(held_from(forest, path, level) == held_from(t.children, rest, level - 1)) by {
                if held_from(forest, path, level) {
                    let m = choose|m: int|
                        level <= m <= path.len() && #[trigger] stays(forest, path, m);
                    lemma_stays_below(forest, path, m);
                    assert(stays(t.children, rest, m - 1));
                }
                if held_from(t.children, rest, level - 1) {
                    let m = choose|m: int|
                        level - 1 <= m <= rest.len() && #[trigger] stays(t.children, rest, m);
                    lemma_stays_below(forest, path, m + 1);
                    assert(stays(forest, path, m + 1));
                }
            }
            if deep {
                lemma_find(lower, rest.take(level - 1)[0]);
                assert(lower.len() > 0);
                assert(!is_void(next));
            }
            assert(resolves(after, short) == deep);
        }
    }
}

/// The value of the node of `t` that the path `path` leads to, where the
/// path begins at `t` itself.
pub open spec fn tree_value(t: TreeView, path: Seq<Seq<char>>) -> Option<SlotView> {
    if path.len() == 1 {
        t.slot
    } else {
        forest_lookup(t.children, path.skip(1))
    }
}

/// Putting a value where there was none and popping it again gives back the
/// forest as it was: the nodes that the put made are gone, and no other.
pub proof fn lemma_put_then_pop(forest: Seq<TreeView>, path: Seq<Seq<char>>, slot: SlotView)
    requires
        pruned(forest),
        forest_lookup(forest, path) is None,
    ensures
        forest_pop(forest_put(forest, path, slot), path) == forest,
    decreases path.len(),
{
    if path.len() > 0 {
        lemma_find(forest, path[0]);
        let i = find(forest, path[0]);
        let once = forest_put(forest, path, slot);
        lemma_find_first(once, path[0], 0, i);
        let node = if i < forest.len() {
            forest[i]
        } else {
            bare(path[0])
        };
        if i < forest.len() {
            assert(!is_void(forest[i]) && pruned(forest[i].children));
        }
        if path.len() > 1 {
            lemma_put_then_pop(node.children, path.skip(1), slot);
        }
        assert(forest_pop(once, path) =~= forest);
    }
}

/// Putting a value into the empty forest and popping it again leaves the
/// empty forest.
pub proof fn lemma_round_trip(path: Seq<Seq<char>>, slot: SlotView)
    ensures
        forest_pop(forest_put(Seq::empty(), path, slot), path) == Seq::<TreeView>::empty(),
{
    lemma_put_then_pop(Seq::empty(), path, slot);
}

/// A pop takes at most one node from the top level, and only the one that
/// the path begins with.
pub proof fn lemma_pop_len(forest: Seq<TreeView>, path: Seq<Seq<char>>)
    ensures
        forest.len() - 1 <= forest_pop(forest, path).len() <= forest.len(),
        forest_pop(forest, path).len() < forest.len() ==> path.len() > 0 && find(forest, path[0])
            < forest.len(),
{
    if path.len() > 0 {
        lemma_find(forest, path[0]);
    }
}

/// The forest after a series of puts, each of a value at a path, the first
/// of the series first.
pub open spec fn put_all(forest: Seq<TreeView>, puts: Seq<(Seq<Seq<char>>, SlotView)>) -> Seq<
    TreeView,
>
    decreases puts.len(),
{
    if puts.len() == 0 {
        forest
    } else {
        forest_put(put_all(forest, puts.drop_last()), puts.last().0, puts.last().1)
    }
}

/// After a series of puts to paths that differ from each other, each of
/// the paths holds the value that was put at it.
pub proof fn lemma_puts_hold(
    forest: Seq<TreeView>,
    puts: Seq<(Seq<Seq<char>>, SlotView)>,
    k: int,
)
    requires
        0 <= k < puts.len(),
        puts[k].0.len() > 0,
        forall|a: int, b: int| 0 <= a < b < puts.len() ==> puts[a].0 != puts[b].0,
    ensures
        forest_lookup(put_all(forest, puts), puts[k].0) == Some(puts[k].1),
    decreases puts.len(),
{
    let earlier = put_all(forest, puts.drop_last());
    if k == puts.len() - 1 {
        lemma_put_then_lookup(earlier, puts[k].0, puts[k].1);
    } else {
        assert(puts.drop_last()[k] == puts[k]);
        lemma_puts_hold(forest, puts.drop_last(), k);
        lemma_put_keeps_others(earlier, puts.last().0, puts.last().1, puts[k].0);
    }
}

/// After a series of puts a path holds a value only if it held one before
/// or is one of the paths of the series.
pub proof fn lemma_puts_only(
    forest: Seq<TreeView>,
    puts: Seq<(Seq<Seq<char>>, SlotView)>,
    path: Seq<Seq<char>>,
)
    requires
        forest_lookup(put_all(forest, puts), path) is Some,
        forest_lookup(forest, path) is None,
    ensures
        exists|k: int| 0 <= k < puts.len() && #[trigger] puts[k].0 == path,
    decreases puts.len(),
{
    if puts.len() > 0 {
        if puts.last().0 == path {
            assert(puts[puts.len() - 1].0 == path);
        } else {
            let earlier = put_all(forest, puts.drop_last());
            lemma_put_keeps_others(earlier, puts.last().0, puts.last().1, path);
            lemma_puts_only(forest, puts.drop_last(), path);
            let k = choose|k: int|
                0 <= k < puts.drop_last().len() && #[trigger] puts.drop_last()[k].0 == path;
            assert(puts[k].0 == path);
        }
    }
}

} // verus!
