use nesti::path::split_path;
use nesti::render::{add_node_to_table, draw_tree, tree_table, Glyphs, Margin, TableRow};
use nesti::slot::Slot;
use nesti::style::{Palette16, Styles};
use nesti::tree::PathTree;

fn slot(text: &str) -> Slot {
    let mut s = Slot::new();
    s.content = String::from(text);
    s
}

fn path(text: &str) -> Vec<String> {
    split_path(text)
}

fn labels(tree: &PathTree, left: usize) -> Vec<String> {
    let margin = Margin { top: 0, bottom: 0, left };
    tree_table(tree, &margin).into_iter().map(|row: TableRow| row.label).collect()
}

fn values(tree: &PathTree) -> Vec<String> {
    let margin = Margin { top: 0, bottom: 0, left: 0 };
    tree_table(tree, &margin).into_iter().map(|row: TableRow| row.value).collect()
}

#[test]
fn split_path_drops_empty_segments() {
    assert_eq!(split_path("a/b/c"), vec!["a", "b", "c"]);
    assert_eq!(split_path("/a//b/"), vec!["a", "b"]);
    assert_eq!(split_path("system/cpu arch"), vec!["system", "cpu arch"]);
    assert_eq!(split_path("é/│"), vec!["é", "│"]);
}

#[test]
fn split_path_of_slashes_only_is_empty() {
    assert!(split_path("").is_empty());
    assert!(split_path("/").is_empty());
    assert!(split_path("////").is_empty());
}

#[test]
fn new_tree_is_empty() {
    let tree = PathTree::new();
    assert!(tree.is_empty());
    assert!(labels(&tree, 0).is_empty());
    assert!(tree.lookup(&path("a")).is_none());
}

#[test]
fn put_creates_the_nodes_of_the_path() {
    let mut tree = PathTree::new();
    tree.put(&path("a/b/c"), slot("X"));
    assert!(!tree.is_empty());
    assert_eq!(labels(&tree, 0), vec!["a", "└─ b", "    └─ c"]);
    assert_eq!(values(&tree), vec!["", "", "X"]);
    assert_eq!(tree.lookup(&path("a/b/c")).unwrap().content, "X");
    assert!(tree.lookup(&path("a/b")).is_none());
    assert!(tree.lookup(&path("a")).is_none());
    assert!(tree.lookup(&path("a/b/c/d")).is_none());
}

#[test]
fn put_with_empty_path_changes_nothing() {
    let mut tree = PathTree::new();
    tree.put(&path(""), slot("X"));
    tree.put(&path("///"), slot("X"));
    assert!(tree.is_empty());
}

#[test]
fn second_put_overwrites_in_place() {
    let mut tree = PathTree::new();
    tree.put(&path("a"), slot("1"));
    tree.put(&path("b"), slot("2"));
    tree.put(&path("c"), slot("3"));
    tree.put(&path("b/x"), slot("4"));
    tree.put(&path("b"), slot("5"));
    assert_eq!(labels(&tree, 0), vec!["a", "b", "└─ x", "c"]);
    assert_eq!(values(&tree), vec!["1", "5", "4", "3"]);
}

#[test]
fn children_keep_the_order_of_their_creation() {
    let mut tree = PathTree::new();
    tree.put(&path("r/z"), slot("1"));
    tree.put(&path("r/a"), slot("2"));
    tree.put(&path("r/m"), slot("3"));
    tree.put(&path("r/a"), slot("4"));
    assert_eq!(labels(&tree, 0), vec!["r", "├─ z", "├─ a", "└─ m"]);
    assert_eq!(values(&tree), vec!["", "1", "4", "3"]);
}

#[test]
fn pop_removes_the_leaf_and_its_empty_ancestors() {
    let mut tree = PathTree::new();
    tree.put(&path("a/b/c"), slot("X"));
    tree.pop(&path("a/b/c"));
    assert!(tree.is_empty());
    assert!(labels(&tree, 0).is_empty());
}

#[test]
fn pop_keeps_an_ancestor_with_other_children() {
    let mut tree = PathTree::new();
    tree.put(&path("a/b/c"), slot("X"));
    tree.put(&path("a/d"), slot("Y"));
    tree.pop(&path("a/b/c"));
    assert_eq!(labels(&tree, 0), vec!["a", "└─ d"]);
    assert_eq!(values(&tree), vec!["", "Y"]);
}

#[test]
fn pop_keeps_an_ancestor_with_its_own_value() {
    let mut tree = PathTree::new();
    tree.put(&path("a/b"), slot("B"));
    tree.put(&path("a/b/c"), slot("C"));
    tree.pop(&path("a/b/c"));
    assert_eq!(labels(&tree, 0), vec!["a", "└─ b"]);
    assert_eq!(values(&tree), vec!["", "B"]);
}

#[test]
fn pop_of_a_node_with_children_keeps_the_node() {
    let mut tree = PathTree::new();
    tree.put(&path("a"), slot("A"));
    tree.put(&path("a/b"), slot("B"));
    tree.pop(&path("a"));
    assert_eq!(labels(&tree, 0), vec!["a", "└─ b"]);
    assert_eq!(values(&tree), vec!["", "B"]);
    assert!(tree.lookup(&path("a")).is_none());
}

#[test]
fn pop_of_an_unknown_path_changes_nothing() {
    let mut tree = PathTree::new();
    tree.put(&path("a/b"), slot("B"));
    tree.pop(&path("a/x"));
    tree.pop(&path("x"));
    tree.pop(&path("a/b/c"));
    tree.pop(&path(""));
    assert_eq!(labels(&tree, 0), vec!["a", "└─ b"]);
    assert_eq!(values(&tree), vec!["", "B"]);
}

#[test]
fn a_popped_path_can_be_put_again_as_last_sibling() {
    let mut tree = PathTree::new();
    tree.put(&path("a"), slot("1"));
    tree.put(&path("b"), slot("2"));
    tree.pop(&path("a"));
    tree.put(&path("a"), slot("3"));
    assert_eq!(labels(&tree, 0), vec!["b", "a"]);
    assert_eq!(values(&tree), vec!["2", "3"]);
}

#[test]
fn sys_tree_shows_junction_and_corner() {
    let mut tree = PathTree::new();
    tree.put(&path("sys/cpu"), slot("1"));
    tree.put(&path("sys/mem"), slot("2"));
    tree.put(&path("sys/mem/used"), slot("3"));
    assert_eq!(labels(&tree, 0), vec!["sys", "├─ cpu", "└─ mem", "    └─ used"]);
    assert_eq!(values(&tree), vec!["", "1", "2", "3"]);
}

#[test]
fn a_branch_with_later_siblings_draws_a_vertical_bar() {
    let mut tree = PathTree::new();
    tree.put(&path("r/a/x"), slot("1"));
    tree.put(&path("r/a/y"), slot("2"));
    tree.put(&path("r/b"), slot("3"));
    assert_eq!(
        labels(&tree, 0),
        vec!["r", "├─ a", "│   ├─ x", "│   └─ y", "└─ b"]
    );
}

#[test]
fn the_left_margin_indents_every_row() {
    let mut tree = PathTree::new();
    tree.put(&path("a/b"), slot("1"));
    tree.put(&path("c"), slot("2"));
    assert_eq!(labels(&tree, 3), vec!["   a", "   └─ b", "   c"]);
}

#[test]
fn one_row_per_node_whatever_the_number_of_descendants() {
    let mut tree = PathTree::new();
    let paths = ["a/b/c", "a/b/d", "a/e", "f", "a/b/c/g", "a"];
    for (i, p) in paths.iter().enumerate() {
        tree.put(&path(p), slot(&format!("{}", i)));
    }
    assert_eq!(
        labels(&tree, 0),
        vec!["a", "├─ b", "│   ├─ c", "│   │   └─ g", "│   └─ d", "└─ e", "f"]
    );
    assert_eq!(values(&tree), vec!["5", "", "0", "4", "1", "2", "3"]);
}

#[test]
fn rows_carry_the_colour_of_the_value() {
    let mut tree = PathTree::new();
    let mut red = slot("1");
    red.style = Styles { text_fg: Some(Palette16::Red) };
    tree.put(&path("a/b"), red);
    tree.put(&path("c"), slot("2"));
    let margin = Margin { top: 0, bottom: 0, left: 0 };
    let colours: Vec<Option<Palette16>> =
        tree_table(&tree, &margin).into_iter().map(|row: TableRow| row.fg).collect();
    assert_eq!(colours, vec![Some(Palette16::Black), Some(Palette16::Red), None]);
}

#[test]
fn handles_walk_the_tree() {
    let mut tree = PathTree::new();
    tree.put(&path("a/b"), slot("1"));
    tree.put(&path("c"), slot("2"));
    let root = tree.root();
    assert_eq!(tree.child_count(root), 2);
    let a = tree.child(root, 0);
    let c = tree.child(root, 1);
    assert_eq!(tree.segment(a), "a");
    assert_eq!(tree.segment(c), "c");
    assert!(tree.slot(a).is_none());
    assert_eq!(tree.slot(c).unwrap().content, "2");
    assert_eq!(tree.child_count(a), 1);
    let b = tree.child(a, 0);
    assert_eq!(tree.segment(b), "b");
    assert_eq!(tree.child_count(b), 0);
}

#[test]
fn a_node_can_be_drawn_at_any_depth() {
    let mut tree = PathTree::new();
    tree.put(&path("a/b"), slot("1"));
    tree.put(&path("a/c"), slot("2"));
    let a = tree.child(tree.root(), 0);
    let margin = Margin { top: 0, bottom: 0, left: 1 };
    let mut table = Vec::new();
    add_node_to_table(&tree, a, 1, true, "| ", &margin, &mut table);
    let drawn: Vec<String> = table.into_iter().map(|row: TableRow| row.label).collect();
    assert_eq!(drawn, vec![" | └─ a", " |     ├─ b", " |     └─ c"]);

    let mut table = Vec::new();
    add_node_to_table(&tree, a, 0, false, "| ", &margin, &mut table);
    let drawn: Vec<String> = table.into_iter().map(|row: TableRow| row.label).collect();
    assert_eq!(drawn, vec![" | a", " ├─ b", " └─ c"]);
}

#[test]
fn the_tree_can_be_drawn_with_other_glyphs() {
    let mut tree = PathTree::new();
    tree.put(&path("r/a/x"), slot("1"));
    tree.put(&path("r/b"), slot("2"));
    let margin = Margin { top: 0, bottom: 0, left: 0 };
    let drawn: Vec<String> = draw_tree(&tree, &Glyphs::rounded(), &margin)
        .into_iter()
        .map(|row: TableRow| row.label)
        .collect();
    assert_eq!(drawn, vec!["r", "├─ a", "│  ╰─ x", "╰─ b"]);
}
