//! The path-keyed store: an arena of nodes addressed by integer handles.

use vstd::prelude::*;
use crate::forest::{
    bare, distinct_names, find, forest_lookup, forest_pop, forest_put, lemma_find,
    lemma_find_first, lemma_pop_keeps_distinct, lemma_pop_keeps_pruned, lemma_pop_unresolved,
    lemma_put_keeps_distinct, lemma_put_keeps_pruned, lemma_put_steps, pruned, resolves, with_node,
    TreeView,
};
use crate::slot::{Slot, SlotView};

verus! {

/// One path segment's place in the tree.
struct Node {
    segment: String,
    /// Handle of the node above; the root is its own parent.
    parent: usize,
    /// Handles of the nodes below, in the order of their creation.
    children: Vec<usize>,
    /// Present only if a value was put exactly at this node's path.
    slot: Option<Slot>,
}

/// The tree of everything that was put and not popped.
///
/// The nodes live in an arena and name each other by their index in it.
/// Node 0 is the unnamed root; its children are the top-level segments. A
/// node that left the tree stays in the arena, unreachable.
pub struct PathTree {
    arena: Vec<Node>,
}

/// The value of a node as a mathematical value.
pub open spec fn slot_view(slot: Option<Slot>) -> Option<SlotView> {
    match slot {
        Some(s) => Some(s@),
        None => None,
    }
}

/// The segments of a path as mathematical strings.
pub open spec fn path_view(path: Seq<String>) -> Seq<Seq<char>> {
    Seq::new(path.len(), |i: int| path[i]@)
}

/// Handles are in range, every node is created after its parent, the
/// children of a node are listed in the order of their creation, and each
/// of them points back at it.
spec fn linked(nodes: Seq<Node>) -> bool {
    &&& nodes.len() >= 1
    &&& nodes[0].parent == 0
    &&& forall|n: int| 0 < n < nodes.len() ==> (#[trigger] nodes[n]).parent < n
    &&& forall|i: int, k: int|
        0 <= i < nodes.len() && 0 <= k < nodes[i].children@.len() ==> {
            let c = #[trigger] nodes[i].children@[k];
            i < c < nodes.len() && nodes[c as int].parent == i
        }
    &&& forall|i: int, k1: int, k2: int|
        0 <= i < nodes.len() && 0 <= k1 < k2 < nodes[i].children@.len()
            ==> #[trigger] nodes[i].children@[k1] < #[trigger] nodes[i].children@[k2]
}

/// The node `i` with everything below it.
spec fn subtree(nodes: Seq<Node>, i: int) -> TreeView
    decreases nodes.len() - i,
{
    if 0 <= i < nodes.len() {
        TreeView {
            segment: nodes[i].segment@,
            slot: slot_view(nodes[i].slot),
            children: Seq::new(
                nodes[i].children@.len(),
                |k: int|
                    if 0 <= k < nodes[i].children@.len() && i < nodes[i].children@[k]
                        < nodes.len() {
                        subtree(nodes, nodes[i].children@[k] as int)
                    } else {
                        bare(Seq::empty())
                    },
            ),
        }
    } else {
        bare(Seq::empty())
    }
}

/// Whether the chain of parents that starts at `n` passes through `a`.
spec fn is_ancestor(nodes: Seq<Node>, a: int, n: int) -> bool
    decreases n,
{
    if n == a {
        true
    } else if a < n < nodes.len() && nodes[n].parent < n {
        is_ancestor(nodes, a, nodes[n].parent as int)
    } else {
        false
    }
}

/// `later` has all the nodes of `earlier`, with the same parents.
spec fn extends(earlier: Seq<Node>, later: Seq<Node>) -> bool {
    &&& earlier.len() <= later.len()
    &&& forall|n: int| 0 <= n < earlier.len() ==> (#[trigger] later[n]).parent == earlier[n].parent
}

proof fn lemma_ancestor_extends(earlier: Seq<Node>, later: Seq<Node>, a: int, n: int)
    requires
        extends(earlier, later),
        0 <= n < earlier.len(),
    ensures
        is_ancestor(later, a, n) == is_ancestor(earlier, a, n),
    decreases n,
{
    if n != a && a < n && earlier[n].parent < n {
        assert(later[n].parent == earlier[n].parent);
        if a >= 0 {
            lemma_ancestor_extends(earlier, later, a, earlier[n].parent as int);
        } else {
            lemma_ancestor_below(earlier, a, earlier[n].parent as int);
            lemma_ancestor_below(later, a, earlier[n].parent as int);
        }
    }
}

/// No chain of parents reaches a negative handle.
proof fn lemma_ancestor_below(nodes: Seq<Node>, a: int, n: int)
    requires
        a < 0,
        0 <= n,
    ensures
        !is_ancestor(nodes, a, n),
    decreases n,
{
    if a < n < nodes.len() && nodes[n].parent < n {
        lemma_ancestor_below(nodes, a, nodes[n].parent as int);
    }
}

/// The ancestors of a node are ancestors of whatever hangs below it.
proof fn lemma_ancestor_step(nodes: Seq<Node>, p: int, c: int, n: int)
    requires
        0 <= p < c < nodes.len(),
        nodes[c].parent == p,
        is_ancestor(nodes, c, n),
    ensures
        is_ancestor(nodes, p, n),
    decreases n,
{
    if n != c {
        lemma_ancestor_step(nodes, p, c, nodes[n].parent as int);
    } else {
        assert(is_ancestor(nodes, p, p));
    }
}

/// The chain of parents of a node is linear: of two ancestors, the one
/// created first is an ancestor of the other.
proof fn lemma_ancestor_chain(nodes: Seq<Node>, a: int, b: int, n: int)
    requires
        a <= b,
        is_ancestor(nodes, a, n),
        is_ancestor(nodes, b, n),
    ensures
        is_ancestor(nodes, a, b),
    decreases n,
{
    if n != b {
        lemma_ancestor_chain(nodes, a, b, nodes[n].parent as int);
    }
}

/// Two children of one node have nothing below them in common.
proof fn lemma_siblings_apart(nodes: Seq<Node>, p: int, c1: int, c2: int, n: int)
    requires
        linked(nodes),
        0 <= p < c1 < nodes.len(),
        p < c2 < nodes.len(),
        c1 != c2,
        nodes[c1].parent == p,
        nodes[c2].parent == p,
        is_ancestor(nodes, c1, n),
    ensures
        !is_ancestor(nodes, c2, n),
{
    if is_ancestor(nodes, c2, n) {
        if c1 < c2 {
            lemma_ancestor_chain(nodes, c1, c2, n);
            assert(is_ancestor(nodes, c1, p));
        } else {
            lemma_ancestor_chain(nodes, c2, c1, n);
            assert(is_ancestor(nodes, c2, p));
        }
        assert(false);
    }
}

/// A subtree is what it was as long as no node below its top changed.
proof fn lemma_frame(earlier: Seq<Node>, later: Seq<Node>, j: int)
    requires
        linked(earlier),
        0 <= j < earlier.len() <= later.len(),
        forall|n: int|
            0 <= n < earlier.len() && is_ancestor(earlier, j, n) ==> #[trigger] later[n]
                == earlier[n],
    ensures
        subtree(later, j) == subtree(earlier, j),
    decreases earlier.len() - j,
{
    assert(is_ancestor(earlier, j, j));
    assert(later[j] == earlier[j]);
    let kids = earlier[j].children@;
    assert forall|k: int| 0 <= k < kids.len() implies subtree(later, kids[k] as int) == subtree(
        earlier,
        kids[k] as int,
    ) by {
        let c = kids[k] as int;
        assert(c == earlier[j].children@[k]);
        assert forall|n: int| 0 <= n < earlier.len() && is_ancestor(earlier, c, n) implies later[n]
            == earlier[n] by {
            lemma_ancestor_step(earlier, j, c, n);
        }
        lemma_frame(earlier, later, c);
    }
    assert(subtree(later, j).children =~= subtree(earlier, j).children);
}

/// What `subtree` says of a node's children, one at a time.
proof fn lemma_children(nodes: Seq<Node>, i: int)
    requires
        linked(nodes),
        0 <= i < nodes.len(),
    ensures
        subtree(nodes, i).segment == nodes[i].segment@,
        subtree(nodes, i).slot == slot_view(nodes[i].slot),
        subtree(nodes, i).children.len() == nodes[i].children@.len(),
        forall|k: int|
            0 <= k < nodes[i].children@.len() ==> #[trigger] subtree(nodes, i).children[k]
                == subtree(nodes, nodes[i].children@[k] as int),
        forall|k: int|
            0 <= k < nodes[i].children@.len() ==> (#[trigger] subtree(
                nodes,
                i,
            ).children[k]).segment == nodes[nodes[i].children@[k] as int].segment@,
{
    assert forall|k: int| 0 <= k < nodes[i].children@.len() implies (#[trigger] subtree(
        nodes,
        i,
    ).children[k]).segment == nodes[nodes[i].children@[k] as int].segment@ by {
        let c = nodes[i].children@[k];
        assert(i < c < nodes.len());
        reveal_with_fuel(subtree, 2);
    }
}

/// A subtree's children are what they were as long as nothing below its top
/// changed.
proof fn lemma_children_kept(earlier: Seq<Node>, later: Seq<Node>, i: int)
    requires
        linked(earlier),
        linked(later),
        0 <= i < earlier.len() <= later.len(),
        later[i].children == earlier[i].children,
        forall|n: int| 0 <= n < earlier.len() && n != i ==> #[trigger] later[n] == earlier[n],
    ensures
        subtree(later, i).children == subtree(earlier, i).children,
{
    lemma_children(earlier, i);
    lemma_children(later, i);
    assert forall|k: int| 0 <= k < earlier[i].children@.len() implies subtree(
        later,
        i,
    ).children[k] == subtree(earlier, i).children[k] by {
        let g = earlier[i].children@[k] as int;
        assert forall|n: int| 0 <= n < earlier.len() && is_ancestor(earlier, g, n) implies later[n]
            == earlier[n] by {
            assert(is_ancestor(earlier, g, n));
            assert(n != i);
        }
        lemma_frame(earlier, later, g);
    }
    assert(subtree(later, i).children =~= subtree(earlier, i).children);
}

/// Where only what hangs below the `k`-th child of a node changed, the
/// node's children are what they were, but for the `k`-th.
proof fn lemma_child_replaced(earlier: Seq<Node>, later: Seq<Node>, i: int, k: int)
    requires
        linked(earlier),
        linked(later),
        0 <= i < earlier.len() <= later.len(),
        0 <= k < earlier[i].children@.len(),
        later[i] == earlier[i],
        forall|n: int|
            0 <= n < earlier.len() && !is_ancestor(earlier, earlier[i].children@[k] as int, n)
                ==> #[trigger] later[n] == earlier[n],
    ensures
        subtree(later, i).children == subtree(earlier, i).children.update(
            k,
            subtree(later, earlier[i].children@[k] as int),
        ),
{
    lemma_children(earlier, i);
    lemma_children(later, i);
    let c = earlier[i].children@[k] as int;
    assert forall|j: int| 0 <= j < earlier[i].children@.len() && j != k implies subtree(
        later,
        i,
    ).children[j] == subtree(earlier, i).children[j] by {
        let s = earlier[i].children@[j] as int;
        assert(s != c) by {
            if j < k {
                assert(earlier[i].children@[j] < earlier[i].children@[k]);
            } else {
                assert(earlier[i].children@[k] < earlier[i].children@[j]);
            }
        }
        assert forall|n: int| 0 <= n < earlier.len() && is_ancestor(earlier, s, n) implies later[n]
            == earlier[n] by {
            lemma_siblings_apart(earlier, i, s, c, n);
        }
        lemma_frame(earlier, later, s);
    }
    assert(subtree(later, i).children =~= subtree(earlier, i).children.update(
        k,
        subtree(later, c),
    ));
}

/// Where a node lost its `k`-th child and nothing else changed, its children
/// are what they were, without the `k`-th.
proof fn lemma_child_removed(earlier: Seq<Node>, later: Seq<Node>, i: int, k: int)
    requires
        linked(earlier),
        linked(later),
        0 <= i < earlier.len() == later.len(),
        0 <= k < earlier[i].children@.len(),
        later[i].children@ == earlier[i].children@.remove(k),
        forall|n: int| 0 <= n < earlier.len() && n != i ==> #[trigger] later[n] == earlier[n],
    ensures
        subtree(later, i).children == subtree(earlier, i).children.remove(k),
{
    lemma_children(earlier, i);
    lemma_children(later, i);
    let kept = subtree(earlier, i).children.remove(k);
    assert forall|j: int| 0 <= j < later[i].children@.len() implies subtree(later, i).children[j]
        == kept[j] by {
        let s = later[i].children@[j] as int;
        let from = if j < k {
            j
        } else {
            j + 1
        };
        assert(s == earlier[i].children@[from]);
        assert forall|n: int| 0 <= n < earlier.len() && is_ancestor(earlier, s, n) implies later[n]
            == earlier[n] by {
            assert(n != i);
        }
        lemma_frame(earlier, later, s);
    }
    assert(subtree(later, i).children =~= kept);
}

/// Taking a child out of a node's list leaves the arena consistent.
proof fn lemma_removal_linked(earlier: Seq<Node>, later: Seq<Node>, i: int, k: int)
    requires
        linked(earlier),
        0 <= i < earlier.len() == later.len(),
        0 <= k < earlier[i].children@.len(),
        later[i].children@ == earlier[i].children@.remove(k),
        later[i].parent == earlier[i].parent,
        forall|n: int| 0 <= n < earlier.len() && n != i ==> #[trigger] later[n] == earlier[n],
    ensures
        linked(later),
{
    assert forall|n: int| 0 < n < later.len() implies (#[trigger] later[n]).parent < n by {
        assert(earlier[n].parent < n);
    }
    assert forall|a: int, j: int| 0 <= a < later.len() && 0 <= j < later[a].children@.len() implies ({
        let x = #[trigger] later[a].children@[j];
        a < x < later.len() && later[x as int].parent == a
    }) by {
        let from = if a == i && j >= k {
            j + 1
        } else {
            j
        };
        assert(later[a].children@[j] == earlier[a].children@[from]);
        let x = earlier[a].children@[from] as int;
        assert(a < x < earlier.len() && earlier[x].parent == a);
    }
    assert forall|a: int, j1: int, j2: int|
        0 <= a < later.len() && 0 <= j1 < j2 < later[a].children@.len() implies 
        #[trigger] later[a].children@[j1] < #[trigger] later[a].children@[j2] by {
        let f1 = if a == i && j1 >= k {
            j1 + 1
        } else {
            j1
        };
        let f2 = if a == i && j2 >= k {
            j2 + 1
        } else {
            j2
        };
        assert(later[a].children@[j1] == earlier[a].children@[f1]);
        assert(later[a].children@[j2] == earlier[a].children@[f2]);
        assert(earlier[a].children@[f1] < earlier[a].children@[f2]);
    }
}

impl View for PathTree {
    type V = Seq<TreeView>;

    /// The top-level nodes, each with everything below it.
    closed spec fn view(&self) -> Seq<TreeView> {
        subtree(self.arena@, 0).children
    }
}

impl PathTree {
    /// The arena is consistent.
    pub closed spec fn structure_ok(&self) -> bool {
        linked(self.arena@)
    }

    /// The tree is well formed: the arena is consistent, no two siblings
    /// share a segment, and no node is kept that has neither a value nor
    /// children.
    pub open spec fn wf(&self) -> bool {
        &&& self.structure_ok()
        &&& distinct_names(self@)
        &&& pruned(self@)
    }

    /// The empty tree.
    pub fn new() -> (t: PathTree)
        ensures
            t.wf(),
            t@ == Seq::<TreeView>::empty(),
    {
        let mut arena: Vec<Node> = Vec::new();
        arena.push(Node { segment: String::new(), parent: 0, children: Vec::new(), slot: None });
        let t = PathTree { arena };
        assert(t@ =~= Seq::<TreeView>::empty());
        t
    }

    /// Position, among the children of `node`, of the one named `segment`.
    fn find_child(&self, node: usize, segment: &String) -> (r: Option<usize>)
        requires
            linked(self.arena@),
            node < self.arena.len(),
        ensures
            ({
                let kids = subtree(self.arena@, node as int).children;
                match r {
                    Some(k) => k < self.arena[node as int].children.len() && find(kids, segment@)
                        == k,
                    None => find(kids, segment@) == kids.len(),
                }
            }),
    {
        proof {
            lemma_children(self.arena@, node as int);
        }
        let ghost kids = subtree(self.arena@, node as int).children;
        let n = self.arena[node].children.len();
        let mut k: usize = 0;
        while k < n
            invariant
                linked(self.arena@),
                node < self.arena.len(),
                n == self.arena[node as int].children.len(),
                k <= n,
                kids.len() == n,
                kids == subtree(self.arena@, node as int).children,
                forall|j: int|
                    0 <= j < n ==> (#[trigger] kids[j]).segment
                        == self.arena[self.arena[node as int].children@[j] as int].segment@,
                forall|j: int| 0 <= j < k ==> (#[trigger] kids[j]).segment != segment@,
            decreases n - k,
        {
            let c = self.arena[node].children[k];
            assert(c == self.arena@[node as int].children@[k as int]);
            if self.arena[c].segment == *segment {
                proof {
                    lemma_find_first(kids, segment@, 0, k as int);
                }
                return Some(k);
            }
            k += 1;
        }
        proof {
            lemma_find_first(kids, segment@, 0, n as int);
        }
        None
    }

    /// Makes sure that `node` has a child named `segment`, appending a bare
    /// one where it has none. Returns the child's position and its handle.
    fn ensure_child(&mut self, node: usize, segment: &String) -> (r: (usize, usize))
        requires
            linked(old(self).arena@),
            node < old(self).arena.len(),
        ensures
            linked(final(self).arena@),
            extends(old(self).arena@, final(self).arena@),
            forall|n: int|
                0 <= n < old(self).arena.len() && n != node ==> #[trigger] final(self).arena@[n]
                    == old(self).arena@[n],
            final(self).arena@[node as int].segment == old(self).arena@[node as int].segment,
            final(self).arena@[node as int].slot == old(self).arena@[node as int].slot,
            subtree(final(self).arena@, node as int).children == with_node(
                subtree(old(self).arena@, node as int).children,
                segment@,
            ),
            r.0 == find(subtree(final(self).arena@, node as int).children, segment@),
            r.0 < final(self).arena@[node as int].children.len(),
            r.1 == final(self).arena@[node as int].children@[r.0 as int],
    {
        let ghost before = self.arena@;
        let ghost kids = subtree(before, node as int).children;
        proof {
            lemma_children(before, node as int);
        }
        match self.find_child(node, segment) {
            Some(k) => (k, self.arena[node].children[k]),
            None => {
                let c = self.arena.len();
                let k = self.arena[node].children.len();
                self.arena.push(
                    Node { segment: segment.clone(), parent: node, children: Vec::new(), slot: None },
                );
                self.arena[node].children.push(c);
                proof {
                    let after = self.arena@;
                    assert(after.len() == before.len() + 1);
                    assert(after[node as int].children@ == before[node as int].children@.push(c));
                    assert forall|n: int| 0 <= n < before.len() && n != node implies after[n]
                        == before[n] by {}
                    assert(linked(after)) by {
                        assert forall|i: int, j: int|
                            0 <= i < after.len() && 0 <= j < after[i].children@.len() implies ({
                            let x = #[trigger] after[i].children@[j];
                            i < x < after.len() && after[x as int].parent == i
                        }) by {
                            if i == node && j < k {
                                assert(after[i].children@[j] == before[i].children@[j]);
                            } else if i != node && i < before.len() {
                                assert(after[i].children@[j] == before[i].children@[j]);
                            }
                        }
                        assert forall|i: int, j1: int, j2: int|
                            0 <= i < after.len() && 0 <= j1 < j2 < after[i].children@.len() implies 
                            #[trigger] after[i].children@[j1] < #[trigger] after[i].children@[j2] by {
                            if i == node {
                                assert(after[i].children@[j1] == before[i].children@[j1]);
                                if j2 < k {
                                    assert(after[i].children@[j2] == before[i].children@[j2]);
                                }
                            } else if i < before.len() {
                                assert(after[i].children@[j1] == before[i].children@[j1]);
                                assert(after[i].children@[j2] == before[i].children@[j2]);
                            }
                        }
                    }
                    lemma_children(after, node as int);
                    assert forall|j: int| 0 <= j < k implies subtree(after, node as int).children[j]
                        == kids[j] by {
                        let s = before[node as int].children@[j] as int;
                        assert(after[node as int].children@[j] == s);
                        assert forall|n: int|
                            0 <= n < before.len() && is_ancestor(before, s, n) implies after[n]
                            == before[n] by {
                            assert(n != node);
                        }
                        lemma_frame(before, after, s);
                    }
                    assert(after[c as int].children@.len() == 0);
                    assert(subtree(after, c as int) == bare(segment@)) by {
                        assert(subtree(after, c as int).children =~= Seq::<TreeView>::empty());
                    }
                    assert(subtree(after, node as int).children =~= kids.push(bare(segment@)));
                    lemma_find(kids, segment@);
                    assert forall|j: int| 0 <= j < k implies (#[trigger] subtree(
                        after,
                        node as int,
                    ).children[j]).segment != segment@ by {
                        assert(kids[j].segment != segment@);
                    }
                    lemma_find_first(subtree(after, node as int).children, segment@, 0, k as int);
                }
                (k, c)
            },
        }
    }

    /// Stores `slot` at the path `path[d..]` below `node`.
    fn put_under(&mut self, node: usize, path: &Vec<String>, d: usize, slot: Slot)
        requires
            linked(old(self).arena@),
            node < old(self).arena.len(),
            d < path.len(),
        ensures
            linked(final(self).arena@),
            extends(old(self).arena@, final(self).arena@),
            forall|n: int|
                0 <= n < old(self).arena.len() && !is_ancestor(old(self).arena@, node as int, n)
                    ==> #[trigger] final(self).arena@[n] == old(self).arena@[n],
            final(self).arena@[node as int].segment == old(self).arena@[node as int].segment,
            final(self).arena@[node as int].slot == old(self).arena@[node as int].slot,
            subtree(final(self).arena@, node as int).children == forest_put(
                subtree(old(self).arena@, node as int).children,
                path_view(path@).skip(d as int),
                slot@,
            ),
        decreases path.len() - d,
    {
        let ghost before = self.arena@;
        let ghost rest = path_view(path@).skip(d as int);
        let ghost value = slot@;
        let (k, c) = self.ensure_child(node, &path[d]);
        let ghost middle = self.arena@;
        let ghost ready = subtree(middle, node as int).children;
        proof {
            assert(rest[0] == path@[d as int]@);
            lemma_put_steps(subtree(before, node as int).children, rest, value);
            lemma_children(middle, node as int);
            lemma_children(middle, c as int);
            assert(rest.skip(1) =~= path_view(path@).skip(d + 1));
        }
        if d + 1 == path.len() {
            self.arena[c].slot = Some(slot);
            proof {
                lemma_children_kept(middle, self.arena@, c as int);
            }
        } else {
            self.put_under(c, path, d + 1, slot);
        }
        proof {
            let after = self.arena@;
            assert(is_ancestor(middle, c as int, c as int));
            assert(!is_ancestor(middle, c as int, node as int));
            lemma_children(after, c as int);
            lemma_child_replaced(middle, after, node as int, k as int);
            assert forall|n: int|
                0 <= n < before.len() && !is_ancestor(before, node as int, n) implies after[n]
                == before[n] by {
                assert(is_ancestor(before, node as int, node as int));
                if is_ancestor(middle, c as int, n) {
                    lemma_ancestor_step(middle, node as int, c as int, n);
                    lemma_ancestor_extends(before, middle, node as int, n);
                }
            }
            assert(subtree(after, c as int) == if rest.len() == 1 {
                TreeView { slot: Some(value), ..ready[k as int] }
            } else {
                TreeView {
                    children: forest_put(ready[k as int].children, rest.skip(1), value),
                    ..ready[k as int]
                }
            });
        }
    }

    /// Stores `slot` at `path`, creating the nodes along the path that are
    /// missing. The value that was there is replaced; the node keeps its
    /// place among its siblings and its children. The empty path changes
    /// nothing.
    pub fn put(&mut self, path: &Vec<String>, slot: Slot)
        requires
            old(self).wf(),
        ensures
            final(self).wf(),
            final(self)@ == forest_put(old(self)@, path_view(path@), slot@),
    {
        if path.len() > 0 {
            proof {
                assert(path_view(path@).skip(0) =~= path_view(path@));
                lemma_put_keeps_distinct(self@, path_view(path@), slot@);
                lemma_put_keeps_pruned(self@, path_view(path@), slot@);
            }
            self.put_under(0, path, 0, slot);
        }
    }

    /// Removes the value at the path `path[d..]` below `node`, and with it
    /// the nodes of that path that are left without value and children.
    fn pop_under(&mut self, node: usize, path: &Vec<String>, d: usize)
        requires
            linked(old(self).arena@),
            node < old(self).arena.len(),
            d < path.len(),
        ensures
            linked(final(self).arena@),
            final(self).arena.len() == old(self).arena.len(),
            extends(old(self).arena@, final(self).arena@),
            forall|n: int|
                0 <= n < old(self).arena.len() && !is_ancestor(old(self).arena@, node as int, n)
                    ==> #[trigger] final(self).arena@[n] == old(self).arena@[n],
            final(self).arena@[node as int].segment == old(self).arena@[node as int].segment,
            final(self).arena@[node as int].slot == old(self).arena@[node as int].slot,
            subtree(final(self).arena@, node as int).children == forest_pop(
                subtree(old(self).arena@, node as int).children,
                path_view(path@).skip(d as int),
            ),
        decreases path.len() - d,
    {
        let ghost before = self.arena@;
        let ghost rest = path_view(path@).skip(d as int);
        let ghost kids = subtree(before, node as int).children;
        proof {
            assert(rest[0] == path@[d as int]@);
            lemma_children(before, node as int);
            assert(rest.skip(1) =~= path_view(path@).skip(d + 1));
            assert(is_ancestor(before, node as int, node as int));
        }
        match self.find_child(node, &path[d]) {
            None => {},
            Some(k) => {
                let c = self.arena[node].children[k];
                proof {
                    lemma_children(before, c as int);
                    assert(c == before[node as int].children@[k as int]);
                }
                if d + 1 == path.len() {
                    self.arena[c].slot = None;
                    proof {
                        lemma_children_kept(before, self.arena@, c as int);
                    }
                } else {
                    self.pop_under(c, path, d + 1);
                }
                let ghost middle = self.arena@;
                proof {
                    assert(is_ancestor(before, c as int, c as int));
                    assert(!is_ancestor(before, c as int, node as int));
                    lemma_children(middle, c as int);
                    lemma_children(middle, node as int);
                    lemma_child_replaced(before, middle, node as int, k as int);
                    assert forall|n: int|
                        0 <= n < before.len() && !is_ancestor(before, node as int, n) implies middle[n]
                        == before[n] by {
                        if is_ancestor(before, c as int, n) {
                            lemma_ancestor_step(before, node as int, c as int, n);
                        }
                    }
                    assert(subtree(middle, c as int) == if rest.len() == 1 {
                        TreeView { slot: None, ..kids[k as int] }
                    } else {
                        TreeView {
                            children: forest_pop(kids[k as int].children, rest.skip(1)),
                            ..kids[k as int]
                        }
                    });
                }
                if self.arena[c].slot.is_none() && self.arena[c].children.len() == 0 {
                    self.arena[node].children.remove(k);
                    proof {
                        let after = self.arena@;
                        assert(after[node as int].children@ == middle[node as int].children@.remove(
                            k as int,
                        ));
                        assert forall|n: int| 0 <= n < middle.len() && n != node implies after[n]
                            == middle[n] by {}
                        lemma_removal_linked(middle, after, node as int, k as int);
                        lemma_child_removed(middle, after, node as int, k as int);
                    }
                }
            },
        }
    }

    /// Removes the value at `path`. Each node of the path that is then left
    /// without value and without children leaves the tree, from the last
    /// one upward; a node that still has a value or other children stays. A
    /// path that does not lead to a node changes nothing.
    pub fn pop(&mut self, path: &Vec<String>)
        requires
            old(self).wf(),
        ensures
            final(self).wf(),
            final(self)@ == forest_pop(old(self)@, path_view(path@)),
            !resolves(old(self)@, path_view(path@)) ==> final(self)@ == old(self)@,
    {
        proof {
            assert(path_view(path@).skip(0) =~= path_view(path@));
            lemma_pop_keeps_distinct(self@, path_view(path@));
            lemma_pop_keeps_pruned(self@, path_view(path@));
            if !resolves(self@, path_view(path@)) {
                lemma_pop_unresolved(self@, path_view(path@));
            }
        }
        if path.len() > 0 {
            self.pop_under(0, path, 0);
        }
    }

    /// The value stored exactly at `path`, if the path leads to a node that
    /// holds one.
    pub fn lookup(&self, path: &Vec<String>) -> (r: Option<&Slot>)
        requires
            self.wf(),
        ensures
            match r {
                Some(s) => forest_lookup(self@, path_view(path@)) == Some(s@),
                None => forest_lookup(self@, path_view(path@)) is None,
            },
    {
        let mut node: usize = 0;
        let mut d: usize = 0;
        proof {
            assert(path_view(path@).skip(0) =~= path_view(path@));
        }
        if path.len() == 0 {
            return None;
        }
        while d < path.len()
            invariant
                linked(self.arena@),
                node < self.arena.len(),
                d <= path.len(),
                d < path.len() ==> forest_lookup(self@, path_view(path@)) == forest_lookup(
                    subtree(self.arena@, node as int).children,
                    path_view(path@).skip(d as int),
                ),
                d == path.len() ==> d > 0 && forest_lookup(self@, path_view(path@)) == slot_view(
                    self.arena@[node as int].slot,
                ),
            decreases path.len() - d,
        {
            let ghost rest = path_view(path@).skip(d as int);
            proof {
                assert(rest[0] == path@[d as int]@);
                lemma_children(self.arena@, node as int);
                assert(rest.skip(1) =~= path_view(path@).skip(d + 1));
            }
            match self.find_child(node, &path[d]) {
                None => {
                    return None;
                },
                Some(k) => {
                    let c = self.arena[node].children[k];
                    proof {
                        lemma_children(self.arena@, c as int);
                    }
                    node = c;
                    d += 1;
                },
            }
        }
        match &self.arena[node].slot {
            Some(s) => Some(s),
            None => None,
        }
    }

    /// Whether `handle` names a node of the arena.
    pub closed spec fn holds(&self, handle: usize) -> bool {
        (handle as int) < self.arena@.len()
    }

    /// One more than the largest handle.
    pub closed spec fn size(&self) -> nat {
        self.arena@.len()
    }

    /// The node that `handle` names, with everything below it.
    pub closed spec fn at(&self, handle: usize) -> TreeView {
        subtree(self.arena@, handle as int)
    }

    /// The handle of the unnamed root, whose children are the top-level
    /// nodes.
    pub fn root(&self) -> (handle: usize)
        requires
            self.wf(),
        ensures
            self.holds(handle),
            handle < self.size() <= usize::MAX,
            self.at(handle).children == self@,
    {
        let size = self.arena.len();
        assert(size == self.size());
        0
    }

    /// How many children the node has.
    pub fn child_count(&self, handle: usize) -> (n: usize)
        requires
            self.wf(),
            self.holds(handle),
        ensures
            n == self.at(handle).children.len(),
            handle < self.size() <= usize::MAX,
    {
        proof {
            lemma_children(self.arena@, handle as int);
        }
        let size = self.arena.len();
        assert(size == self.size());
        self.arena[handle].children.len()
    }

    /// The handle of the node's `k`-th child. A child's handle is larger
    /// than its parent's.
    pub fn child(&self, handle: usize, k: usize) -> (c: usize)
        requires
            self.wf(),
            self.holds(handle),
            k < self.at(handle).children.len(),
        ensures
            self.holds(c),
            handle < c < self.size() <= usize::MAX,
            self.at(c) == self.at(handle).children[k as int],
    {
        proof {
            lemma_children(self.arena@, handle as int);
        }
        let c = self.arena[handle].children[k];
        assert(c == self.arena@[handle as int].children@[k as int]);
        let size = self.arena.len();
        assert(size == self.size());
        c
    }

    /// The segment that names the node.
    pub fn segment(&self, handle: usize) -> (s: &String)
        requires
            self.wf(),
            self.holds(handle),
        ensures
            s@ == self.at(handle).segment,
    {
        &self.arena[handle].segment
    }

    /// The value put exactly at the node's path, if any.
    pub fn slot(&self, handle: usize) -> (r: Option<&Slot>)
        requires
            self.wf(),
            self.holds(handle),
        ensures
            match r {
                Some(s) => self.at(handle).slot == Some(s@),
                None => self.at(handle).slot is None,
            },
    {
        match &self.arena[handle].slot {
            Some(s) => Some(s),
            None => None,
        }
    }

    /// Whether the tree holds no node.
    pub fn is_empty(&self) -> (b: bool)
        requires
            self.wf(),
        ensures
            b == (self@.len() == 0),
    {
        self.arena[0].children.len() == 0
    }
}

} // verus!
