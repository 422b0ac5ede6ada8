//! From the tree to the rows of a two-column table: one row per node, the
//! left cell drawn with the glyphs that show where the node hangs.

use vstd::prelude::*;
use vstd::string::StringExecFns;
use crate::forest::TreeView;
use crate::slot::SlotView;
use crate::strings::{push_repeated, spaces};
use crate::style::Palette16;
use crate::tree::PathTree;

verus! {

/// Blank lines above and below the frame, and blank columns to its left.
#[derive(Debug, Clone, Copy, PartialEq, Eq, Structural)]
pub struct Margin {
    pub top: usize,
    pub bottom: usize,
    pub left: usize,
}

/// One row of the table: the indented name of a node, the text of its value
/// and the colour the value is drawn in.
#[derive(Debug)]
pub struct TableRow {
    pub label: String,
    pub value: String,
    pub fg: Option<Palette16>,
}

/// A `TableRow` as a mathematical value.
pub struct RowView {
    pub label: Seq<char>,
    pub value: Seq<char>,
    pub fg: Option<Palette16>,
}

impl View for TableRow {
    type V = RowView;

    open spec fn view(&self) -> RowView {
        RowView { label: self.label@, value: self.value@, fg: self.fg }
    }
}

/// The rows of a table as mathematical values.
pub open spec fn rows_view(rows: Seq<TableRow>) -> Seq<RowView> {
    Seq::new(rows.len(), |i: int| rows[i]@)
}

/// The glyphs that a tree is drawn with.
#[derive(Debug)]
pub struct Glyphs {
    /// Stands before the name of a last child.
    pub corner: String,
    /// Stands before the name of a child that has later siblings.
    pub junction: String,
    /// The column below an ancestor that has later siblings.
    pub vertical: String,
    /// The column below an ancestor that was a last child.
    pub blank: String,
    /// The colour of the blank that stands for the value of a node that
    /// holds none.
    pub placeholder: Option<Palette16>,
}

/// A set of glyphs as a mathematical value.
pub struct GlyphsView {
    pub corner: Seq<char>,
    pub junction: Seq<char>,
    pub vertical: Seq<char>,
    pub blank: Seq<char>,
    pub placeholder: Option<Palette16>,
}

impl View for Glyphs {
    type V = GlyphsView;

    open spec fn view(&self) -> GlyphsView {
        GlyphsView {
            corner: self.corner@,
            junction: self.junction@,
            vertical: self.vertical@,
            blank: self.blank@,
            placeholder: self.placeholder,
        }
    }
}

/// The glyphs with a square corner and columns four wide, with which the
/// tree is drawn; the value of a node that holds none is a black blank.
pub open spec fn square_glyphs() -> GlyphsView {
    GlyphsView {
        corner: seq!['└', '─', ' '],
        junction: seq!['├', '─', ' '],
        vertical: seq!['│', ' ', ' ', ' '],
        blank: seq![' ', ' ', ' ', ' '],
        placeholder: Some(Palette16::Black),
    }
}

/// The glyphs with a rounded corner and columns three wide, with which a
/// flat list is drawn; a segment that only leads further has no value and
/// no colour.
pub open spec fn rounded_glyphs() -> GlyphsView {
    GlyphsView {
        corner: seq!['╰', '─', ' '],
        junction: seq!['├', '─', ' '],
        vertical: seq!['│', ' ', ' '],
        blank: seq![' ', ' ', ' '],
        placeholder: None,
    }
}

impl Glyphs {
    /// The glyphs with a square corner and columns four wide.
    pub fn square() -> (glyphs: Glyphs)
        ensures
            glyphs@ == square_glyphs(),
    {
        proof {
            reveal_strlit("└─ ");
            reveal_strlit("├─ ");
            reveal_strlit("│   ");
            reveal_strlit("    ");
            assert("└─ "@ =~= square_glyphs().corner);
            assert("├─ "@ =~= square_glyphs().junction);
            assert("│   "@ =~= square_glyphs().vertical);
            assert("    "@ =~= square_glyphs().blank);
        }
        Glyphs {
            corner: String::from_str("└─ "),
            junction: String::from_str("├─ "),
            vertical: String::from_str("│   "),
            blank: String::from_str("    "),
            placeholder: Some(Palette16::Black),
        }
    }

    /// The glyphs with a rounded corner and columns three wide.
    pub fn rounded() -> (glyphs: Glyphs)
        ensures
            glyphs@ == rounded_glyphs(),
    {
        proof {
            reveal_strlit("╰─ ");
            reveal_strlit("├─ ");
            reveal_strlit("│  ");
            reveal_strlit("   ");
            assert("╰─ "@ =~= rounded_glyphs().corner);
            assert("├─ "@ =~= rounded_glyphs().junction);
            assert("│  "@ =~= rounded_glyphs().vertical);
            assert("   "@ =~= rounded_glyphs().blank);
        }
        Glyphs {
            corner: String::from_str("╰─ "),
            junction: String::from_str("├─ "),
            vertical: String::from_str("│  "),
            blank: String::from_str("   "),
            placeholder: None,
        }
    }
}

/// The glyph before a node's name: none at the top level, else the corner
/// for a last child and the junction for any other.
pub open spec fn connector(depth: nat, is_last: bool, glyphs: GlyphsView) -> Seq<char> {
    if depth == 0 {
        Seq::empty()
    } else if is_last {
        glyphs.corner
    } else {
        glyphs.junction
    }
}

/// The column that stands below a node, before what hangs deeper: blank
/// below a last child, a vertical bar below any other.
pub open spec fn column(is_last: bool, glyphs: GlyphsView) -> Seq<char> {
    if is_last {
        glyphs.blank
    } else {
        glyphs.vertical
    }
}

/// What stands before the connectors of a node's children: nothing below a
/// top-level node; else the node's own prefix and one more column.
pub open spec fn child_prefix(
    prefix: Seq<char>,
    depth: nat,
    is_last: bool,
    glyphs: GlyphsView,
) -> Seq<char> {
    if depth == 0 {
        Seq::empty()
    } else {
        prefix + column(is_last, glyphs)
    }
}

/// The name of a node as it is drawn: the left margin, the prefix, the
/// connector and the segment.
pub open spec fn label_of(
    left: nat,
    prefix: Seq<char>,
    depth: nat,
    is_last: bool,
    glyphs: GlyphsView,
    segment: Seq<char>,
) -> Seq<char> {
    spaces(left) + prefix + connector(depth, is_last, glyphs) + segment
}

/// The text of a node's value; blank where it holds none.
pub open spec fn value_text(slot: Option<SlotView>) -> Seq<char> {
    match slot {
        Some(s) => s.content,
        None => Seq::empty(),
    }
}

/// The colour of a node's value; that of the placeholder for a node
/// without value.
pub open spec fn value_colour(slot: Option<SlotView>, glyphs: GlyphsView) -> Option<Palette16> {
    match slot {
        Some(s) => s.style.text_fg,
        None => glyphs.placeholder,
    }
}

/// The row of one node.
pub open spec fn row_of(
    t: TreeView,
    depth: nat,
    is_last: bool,
    prefix: Seq<char>,
    left: nat,
    glyphs: GlyphsView,
) -> RowView {
    RowView {
        label: label_of(left, prefix, depth, is_last, glyphs, t.segment),
        value: value_text(t.slot),
        fg: value_colour(t.slot, glyphs),
    }
}

/// The rows of a node and of everything below it: its own row, then the
/// rows of its children, one level deeper.
pub open spec fn tree_rows(
    t: TreeView,
    depth: nat,
    is_last: bool,
    prefix: Seq<char>,
    left: nat,
    glyphs: GlyphsView,
) -> Seq<RowView>
    decreases t, 0nat,
{
    seq![row_of(t, depth, is_last, prefix, left, glyphs)] + sibling_rows(
        t.children,
        0,
        depth + 1,
        child_prefix(prefix, depth, is_last, glyphs),
        left,
        glyphs,
    )
}

/// The rows of the siblings from position `k` on, in their order. The last
/// of the siblings, and only it, is drawn as a last child.
pub open spec fn sibling_rows(
    forest: Seq<TreeView>,
    k: nat,
    depth: nat,
    prefix: Seq<char>,
    left: nat,
    glyphs: GlyphsView,
) -> Seq<RowView>
    decreases forest, forest.len() - k,
{
    if k >= forest.len() {
        Seq::empty()
    } else {
        tree_rows(forest[k as int], depth, k + 1 == forest.len(), prefix, left, glyphs)
            + sibling_rows(forest, k + 1, depth, prefix, left, glyphs)
    }
}

/// The rows of a whole forest, whose trees stand at the top level.
pub open spec fn forest_rows(forest: Seq<TreeView>, left: nat, glyphs: GlyphsView) -> Seq<RowView> {
    sibling_rows(forest, 0, 0, Seq::empty(), left, glyphs)
}

/// A forest that is not empty has rows.
pub proof fn lemma_rows_of_forest(forest: Seq<TreeView>, left: nat, glyphs: GlyphsView)
    requires
        forest.len() > 0,
    ensures
        forest_rows(forest, left, glyphs).len() > 0,
{
    let first = tree_rows(forest[0], 0, 1 == forest.len(), Seq::empty(), left, glyphs);
    let later = sibling_rows(forest, 1, 0, Seq::empty(), left, glyphs);
    assert(first.len() >= 1);
    assert(forest_rows(forest, left, glyphs) == first + later);
}

/// Draws the name of a node: the left margin, the prefix, the connector
/// and the segment.
pub fn draw_label(
    left: usize,
    prefix: &str,
    depth: usize,
    is_last: bool,
    glyphs: &Glyphs,
    segment: &str,
) -> (label: String)
    ensures
        label@ == label_of(left as nat, prefix@, depth as nat, is_last, glyphs@, segment@),
{
    let mut label = String::new();
    push_repeated(&mut label, ' ', left);
    label.append(prefix);
    if depth != 0 {
        if is_last {
            label.append(glyphs.corner.as_str());
        } else {
            label.append(glyphs.junction.as_str());
        }
    }
    label.append(segment);
    assert(label@ =~= label_of(
        left as nat,
        prefix@,
        depth as nat,
        is_last,
        glyphs@,
        segment@,
    ));
    label
}

/// The prefix with one more column behind it.
pub fn extend_prefix(prefix: &str, is_last: bool, glyphs: &Glyphs) -> (longer: String)
    ensures
        longer@ == prefix@ + column(is_last, glyphs@),
{
    let mut longer = String::from_str(prefix);
    if is_last {
        longer.append(glyphs.blank.as_str());
    } else {
        longer.append(glyphs.vertical.as_str());
    }
    longer
}

/// Appends to `table` the row of the node `node` and the rows of everything
/// below it, drawn with `glyphs`. The depth may be any that leaves room
/// for the levels below the node.
pub fn draw_node(
    tree: &PathTree,
    node: usize,
    depth: usize,
    is_last: bool,
    prefix: &str,
    glyphs: &Glyphs,
    margin: &Margin,
    table: &mut Vec<TableRow>,
)
    requires
        tree.wf(),
        tree.holds(node),
        depth as int + (tree.size() - node) <= usize::MAX,
    ensures
        rows_view(final(table)@) == rows_view(old(table)@) + tree_rows(
            tree.at(node),
            depth as nat,
            is_last,
            prefix@,
            margin.left as nat,
            glyphs@,
        ),
    decreases tree.size() - node,
{
    let ghost t = tree.at(node);
    let ghost left = margin.left as nat;
    let n = tree.child_count(node);
    let label = draw_label(margin.left, prefix, depth, is_last, glyphs, tree.segment(node).as_str());
    let (value, fg) = match tree.slot(node) {
        Some(slot) => (slot.content.clone(), slot.style.text_fg),
        None => (String::new(), glyphs.placeholder),
    };
    let row = TableRow { label, value, fg };
    assert(row@ == row_of(t, depth as nat, is_last, prefix@, left, glyphs@));
    let ghost before = rows_view(table@);
    table.push(row);
    assert(rows_view(table@) =~= before + seq![row@]);

    let below = if depth != 0 {
        extend_prefix(prefix, is_last, glyphs)
    } else {
        String::new()
    };
    assert(below@ =~= child_prefix(prefix@, depth as nat, is_last, glyphs@));
    let mut k: usize = 0;
    while k < n
        invariant
            tree.wf(),
            tree.holds(node),
            depth as int + (tree.size() - node) <= usize::MAX,
            node < tree.size(),
            t == tree.at(node),
            n == t.children.len(),
            k <= n,
            left == margin.left as nat,
            rows_view(table@) + sibling_rows(
                t.children,
                k as nat,
                (depth + 1) as nat,
                below@,
                left,
                glyphs@,
            ) == rows_view(old(table)@) + tree_rows(
                t,
                depth as nat,
                is_last,
                prefix@,
                left,
                glyphs@,
            ),
        decreases n - k,
    {
        let child = tree.child(node, k);
        let ghost so_far = rows_view(table@);
        draw_node(tree, child, depth + 1, k + 1 == n, below.as_str(), glyphs, margin, table);
        proof {
            let own = tree_rows(
                t.children[k as int],
                (depth + 1) as nat,
                k + 1 == n,
                below@,
                left,
                glyphs@,
            );
            let later = sibling_rows(
                t.children,
                (k + 1) as nat,
                (depth + 1) as nat,
                below@,
                left,
                glyphs@,
            );
            assert((so_far + own) + later =~= so_far + (own + later));
        }
        k += 1;
    }
    proof {
        assert(rows_view(table@) + Seq::<RowView>::empty() =~= rows_view(table@));
    }
}

/// Appends to `table` the row of the node `node` and the rows of everything
/// below it, drawn with the square glyphs.
pub fn add_node_to_table(
    tree: &PathTree,
    node: usize,
    depth: usize,
    is_last: bool,
    prefix: &str,
    margin: &Margin,
    table: &mut Vec<TableRow>,
)
    requires
        tree.wf(),
        tree.holds(node),
        depth as int + (tree.size() - node) <= usize::MAX,
    ensures
        rows_view(final(table)@) == rows_view(old(table)@) + tree_rows(
            tree.at(node),
            depth as nat,
            is_last,
            prefix@,
            margin.left as nat,
            square_glyphs(),
        ),
{
    let glyphs = Glyphs::square();
    draw_node(tree, node, depth, is_last, prefix, &glyphs, margin, table);
}

/// The rows of the whole tree, from top to bottom, drawn with `glyphs`.
pub fn draw_tree(tree: &PathTree, glyphs: &Glyphs, margin: &Margin) -> (table: Vec<TableRow>)
    requires
        tree.wf(),
    ensures
        rows_view(table@) == forest_rows(tree@, margin.left as nat, glyphs@),
{
    let mut table: Vec<TableRow> = Vec::new();
    let root = tree.root();
    let n = tree.child_count(root);
    let mut k: usize = 0;
    let ghost left = margin.left as nat;
    proof {
        assert(rows_view(table@) =~= Seq::<RowView>::empty());
        assert(Seq::<RowView>::empty() + forest_rows(tree@, left, glyphs@) =~= forest_rows(
            tree@,
            left,
            glyphs@,
        ));
    }
    while k < n
        invariant
            tree.wf(),
            tree.holds(root),
            tree.at(root).children == tree@,
            n == tree@.len(),
            k <= n,
            left == margin.left as nat,
            rows_view(table@) + sibling_rows(tree@, k as nat, 0, Seq::empty(), left, glyphs@)
                == forest_rows(tree@, left, glyphs@),
        decreases n - k,
    {
        let top = tree.child(root, k);
        let ghost so_far = rows_view(table@);
        draw_node(tree, top, 0, k + 1 == n, "", glyphs, margin, &mut table);
        proof {
            reveal_strlit("");
            assert(""@ =~= Seq::<char>::empty());
            let own = tree_rows(tree@[k as int], 0, k + 1 == n, Seq::empty(), left, glyphs@);
            let later = sibling_rows(tree@, (k + 1) as nat, 0, Seq::empty(), left, glyphs@);
            assert((so_far + own) + later =~= so_far + (own + later));
        }
        k += 1;
    }
    proof {
        assert(rows_view(table@) + Seq::<RowView>::empty() =~= rows_view(table@));
    }
    table
}

/// The rows of the whole tree, from top to bottom, drawn with the square
/// glyphs.
pub fn tree_table(tree: &PathTree, margin: &Margin) -> (table: Vec<TableRow>)
    requires
        tree.wf(),
    ensures
        rows_view(table@) == forest_rows(tree@, margin.left as nat, square_glyphs()),
{
    let glyphs = Glyphs::square();
    draw_tree(tree, &glyphs, margin)
}

} // verus!
