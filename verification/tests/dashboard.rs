use nesti::console::render_rows;
use nesti::dashboard::{clock_reading, render_list, Buffer, Nesti, OutputOptions};
use nesti::elements::color::Color;
use nesti::elements::number::Integer;
use nesti::elements::text::Text;
use nesti::elements::timer::{Timer, Truncate};
use nesti::ranges::{draw_range, flatten, render_range, FlatRow};
use nesti::render::{tree_table, Glyphs, Margin, TableRow};
use nesti::path::split_path;
use nesti::slot::{ElementError, NumericValue, Slot};
use nesti::style::{Palette16, Styles};
use nesti::terminal::count_lines;
use nesti::tree::PathTree;

fn text(s: &str) -> Text {
    Text(String::from(s))
}

fn no_margin() -> Margin {
    Margin { top: 0, bottom: 0, left: 0 }
}

#[test]
fn default_options() {
    let opt = OutputOptions::default();
    assert_eq!(opt.refresh_rate, 32);
    assert_eq!(opt.margin, Margin { top: 1, bottom: 1, left: 3 });
    assert_eq!(opt.buffer, Buffer::Stdout);
}

#[test]
fn empty_dashboard_renders_nothing() {
    let mut nesti = Nesti::new();
    assert_eq!(nesti.render(&Margin { top: 2, bottom: 2, left: 2 }), "");
    assert_eq!(nesti.flush(), "");
    assert_eq!(nesti.flush(), "");
}

#[test]
fn put_then_pop_then_flush_is_empty() {
    let mut nesti = Nesti::default();
    nesti.put_at("a/b/c", text("X"), 0).unwrap();
    nesti.pop("a/b/c");
    assert_eq!(nesti.flush(), "");
}

#[test]
fn delta_leaves_the_sum_at_the_path() {
    let mut nesti = Nesti::new();
    nesti.put_at("n", Integer(5u64), 0).unwrap();
    nesti.put_at("n", Integer(3u64).add(), 0).unwrap();
    let slot = nesti.lookup("n").unwrap();
    assert_eq!(slot.numeric, Some(NumericValue::U64(8)));
    assert_eq!(slot.content, "8");
}

#[test]
fn refused_put_leaves_the_dashboard_as_it_was() {
    let mut nesti = Nesti::new();
    nesti.put_at("a", text("A"), 0).unwrap();
    let before = nesti.render(&no_margin());
    assert_eq!(nesti.put_at("x/y", Integer(3u64).sub(), 0), Err(ElementError::MissingValue));
    assert_eq!(nesti.put_at("a", Integer(0u64).div(), 0), Err(ElementError::MissingValue));
    nesti.put_at("n", Integer(1u8), 0).unwrap();
    let with_n = nesti.render(&no_margin());
    assert_eq!(nesti.put_at("n", Integer(0u8).div(), 0), Err(ElementError::DivisionByZero));
    assert_eq!(nesti.put_at("n", Integer(255u8).add(), 0), Err(ElementError::Overflow));
    assert_eq!(nesti.put_at("n", Integer(1u16).add(), 0), Err(ElementError::ContextMismatch));
    assert_eq!(nesti.render(&no_margin()), with_n);
    assert!(nesti.lookup("x/y").is_none());
    assert!(nesti.lookup("x").is_none());
    nesti.pop("n");
    assert_eq!(nesti.render(&no_margin()), before);
}

#[test]
fn malformed_paths_are_no_ops() {
    let mut nesti = Nesti::new();
    assert_eq!(nesti.put_at("", text("A"), 0), Ok(()));
    assert_eq!(nesti.put_at("//", Integer(1u8).sub(), 0), Ok(()));
    nesti.pop("");
    nesti.pop("/");
    assert!(nesti.lookup("").is_none());
    assert_eq!(nesti.render(&no_margin()), "");
}

#[test]
fn put_reads_the_clock() {
    let mut nesti = Nesti::new();
    nesti.put("up", Timer(Truncate::Year)).unwrap();
    let first = nesti.lookup("up").unwrap().timer.unwrap();
    nesti.put("up", Timer(Truncate::Year)).unwrap();
    assert_eq!(nesti.lookup("up").unwrap().timer, Some(first));
    assert!(nesti.now() >= first.0);
}

#[test]
fn table_has_two_columns() {
    let rows = vec![
        TableRow { label: String::from("sys"), value: String::new(), fg: None },
        TableRow { label: String::from("├─ cpu"), value: String::from("12"), fg: None },
        TableRow { label: String::from("└─ memory used"), value: String::from("1,024"), fg: None },
    ];
    let text = render_rows(&rows);
    assert_eq!(
        text,
        "sys                       \n├─ cpu                  12\n└─ memory used       1,024\n"
    );
}

#[test]
fn table_colours_the_value() {
    let rows = vec![TableRow {
        label: String::from("a"),
        value: String::from("x"),
        fg: Some(Palette16::Red),
    }];
    assert_eq!(render_rows(&rows), "a                    \x1b[0m\x1b[31mx\x1b[0m\n");
    let rows = vec![TableRow {
        label: String::from("a"),
        value: String::from("x"),
        fg: Some(Palette16::Default),
    }];
    assert_eq!(render_rows(&rows), "a                    \x1b[0m\x1b[0mx\x1b[0m\n");
}

#[test]
fn frame_stands_between_the_margins() {
    let mut nesti = Nesti::new();
    nesti.put_at("a/b", Color::Plain(text("x")), 0).unwrap();
    nesti.put_at("a", text("y"), 0).unwrap();
    let bare = nesti.render(&no_margin());
    assert_eq!(count_lines(&bare), 2);
    let framed = nesti.render(&Margin { top: 2, bottom: 1, left: 0 });
    assert_eq!(framed, format!("\n\n{}\n", bare));
    let indented = nesti.render(&Margin { top: 0, bottom: 0, left: 2 });
    assert!(indented.starts_with("  a "));
}

#[test]
fn first_flush_prints_and_second_repaints() {
    let mut nesti = Nesti::new();
    nesti.put_at("a", text("1"), 0).unwrap();
    let opt = OutputOptions { refresh_rate: 32, margin: Margin { top: 1, bottom: 1, left: 0 }, buffer: Buffer::Stderr };
    let three = nesti.render(&opt.margin);
    assert_eq!(count_lines(&three), 3);
    assert_eq!(nesti.write_to_buffer(&opt), three);

    nesti.put_at("b", text("2"), 0).unwrap();
    nesti.put_at("c", text("3"), 0).unwrap();
    let five = nesti.render(&opt.margin);
    assert_eq!(count_lines(&five), 5);
    assert_eq!(nesti.write_to_buffer(&opt), format!("\x1b[3A\x1b[J{}", five));
    assert_eq!(nesti.write_to_buffer(&opt), format!("\x1b[5A\x1b[J{}", five));

    nesti.pop("a");
    nesti.pop("b");
    nesti.pop("c");
    assert_eq!(nesti.write_to_buffer(&opt), "\x1b[5A\x1b[J");
    assert_eq!(nesti.write_to_buffer(&opt), "");
}

#[test]
fn flush_uses_the_default_options() {
    let mut nesti = Nesti::new();
    nesti.put_at("a", text("1"), 0).unwrap();
    let frame = nesti.render(&OutputOptions::default().margin);
    assert!(frame.starts_with("\n   a"));
    assert_eq!(nesti.flush(), frame);
}

fn flat(path: &str, content: &str) -> FlatRow {
    FlatRow { path: split_path(path), content: String::from(content), style: Styles::new() }
}

fn range_labels(rows: &Vec<FlatRow>) -> Vec<(String, String)> {
    let mut out = Vec::new();
    render_range(rows, 0, rows.len(), 0, "", &mut out);
    out.into_iter().map(|row: TableRow| (row.label, row.value)).collect()
}

fn square_range_labels(rows: &Vec<FlatRow>) -> Vec<(String, String)> {
    let mut out = Vec::new();
    draw_range(rows, 0, rows.len(), 0, "", &Glyphs::square(), &mut out);
    out.into_iter().map(|row: TableRow| (row.label, row.value)).collect()
}

fn pair(label: &str, value: &str) -> (String, String) {
    (String::from(label), String::from(value))
}

#[test]
fn ranges_group_shared_prefixes() {
    let rows = vec![flat("sys/cpu", "1"), flat("sys/mem", "2"), flat("sys/mem/used", "3")];
    assert_eq!(
        range_labels(&rows),
        vec![pair("sys", ""), pair("├─ cpu", "1"), pair("╰─ mem", "2"), pair("   ╰─ used", "3")]
    );
}

#[test]
fn ranges_show_a_structural_segment_once() {
    let rows = vec![flat("a/b/x", "1"), flat("a/b/y", "2"), flat("a/c", "3"), flat("d", "4")];
    assert_eq!(
        range_labels(&rows),
        vec![
            pair("a", ""),
            pair("├─ b", ""),
            pair("│  ├─ x", "1"),
            pair("│  ╰─ y", "2"),
            pair("╰─ c", "3"),
            pair("d", "4"),
        ]
    );
}

#[test]
fn ranges_of_nothing_are_empty() {
    assert!(range_labels(&Vec::new()).is_empty());
    let rows = vec![flat("", "1")];
    assert!(range_labels(&rows).is_empty());
}

#[test]
fn flattened_tree_renders_like_the_tree() {
    let mut tree = PathTree::new();
    let paths = ["a/b/c", "a/b/d", "a/e", "f", "a/b/c/g", "a", "h/i/j"];
    for (i, p) in paths.iter().enumerate() {
        let mut slot = Slot::new();
        slot.content = format!("{}", i);
        tree.put(&split_path(p), slot);
    }
    let rows = flatten(&tree);
    let listed: Vec<String> = rows.iter().map(|row| row.path.join("/")).collect();
    assert_eq!(listed, vec!["a", "a/b/c", "a/b/c/g", "a/b/d", "a/e", "f", "h/i/j"]);
    let walked: Vec<(String, String)> = tree_table(&tree, &no_margin())
        .into_iter()
        .map(|row: TableRow| (row.label, row.value))
        .collect();
    assert_eq!(square_range_labels(&rows), walked);
}

#[test]
fn frame_of_the_flat_list_is_the_frame_of_the_tree() {
    let mut tree = PathTree::new();
    let mut nesti = Nesti::new();
    for (i, p) in ["a/b/c", "a/b/d", "a/e", "f", "a"].iter().enumerate() {
        let mut slot = Slot::new();
        slot.content = format!("{}", i);
        tree.put(&split_path(p), slot);
        nesti.put_at(p, text(&format!("{}", i)), 0).unwrap();
    }
    let margin = Margin { top: 1, bottom: 2, left: 3 };
    assert_eq!(render_list(&flatten(&tree), &Glyphs::square(), &margin), nesti.render(&margin));
    assert_eq!(render_list(&Vec::new(), &Glyphs::rounded(), &margin), "");
}

#[test]
fn repaint_leaves_the_count_until_painted() {
    let mut nesti = Nesti::new();
    nesti.put_at("a", text("1"), 0).unwrap();
    let opt = OutputOptions::default();
    let frame = nesti.render(&opt.margin);
    let (first, lines) = nesti.repaint(&opt);
    assert_eq!(first, frame);
    assert_eq!(lines, 3);
    let (again, _) = nesti.repaint(&opt);
    assert_eq!(again, frame);
    nesti.painted(lines);
    let (second, _) = nesti.repaint(&opt);
    assert_eq!(second, format!("\x1b[3A\x1b[J{}", frame));
}

#[test]
fn clock_readings_stop_at_the_longest_span() {
    assert_eq!(clock_reading(0), 0);
    assert_eq!(clock_reading(1_500_000_000), 1_500_000_000);
    assert_eq!(clock_reading(u64::MAX as u128), u64::MAX);
    assert_eq!(clock_reading(u64::MAX as u128 + 1), u64::MAX);
    assert_eq!(clock_reading(u128::MAX), u64::MAX);
}

#[test]
fn a_row_that_ends_above_its_group_follows_it() {
    let rows = vec![flat("a/b", "c1"), flat("a", "c0")];
    assert_eq!(range_labels(&rows), vec![pair("a", "c0"), pair("╰─ b", "c1")]);
}

#[test]
fn ranges_keep_the_prefix_of_the_top_level() {
    let rows = vec![flat("a/b/c", "1"), flat("a/d", "2")];
    let mut out = Vec::new();
    render_range(&rows, 0, rows.len(), 0, "> ", &mut out);
    let labels: Vec<String> = out.into_iter().map(|row: TableRow| row.label).collect();
    assert_eq!(labels, vec!["> a", "> ├─ b", "> │  ╰─ c", "> ╰─ d"]);
}

#[test]
fn ranges_can_start_below_the_top_level() {
    let rows = vec![flat("a/b", "1"), flat("a/c", "2")];
    let mut out = Vec::new();
    render_range(&rows, 0, rows.len(), 1, "", &mut out);
    let labels: Vec<String> = out.into_iter().map(|row: TableRow| row.label).collect();
    assert_eq!(labels, vec!["├─ b", "╰─ c"]);
}

#[test]
fn list_frame_draws_with_the_glyphs_it_is_given() {
    let rows = vec![flat("a/b", "1")];
    let margin = Margin { top: 1, bottom: 0, left: 2 };
    let frame = render_list(&rows, &Glyphs::rounded(), &margin);
    assert!(frame.starts_with("\n  a"));
    assert!(frame.contains("  ╰─ b"));
}

#[test]
fn glyph_sets() {
    let square = Glyphs::square();
    assert_eq!(square.corner, "└─ ");
    assert_eq!(square.junction, "├─ ");
    assert_eq!(square.vertical, "│   ");
    assert_eq!(square.blank, "    ");
    let rounded = Glyphs::rounded();
    assert_eq!(rounded.corner, "╰─ ");
    assert_eq!(rounded.junction, "├─ ");
    assert_eq!(rounded.vertical, "│  ");
    assert_eq!(rounded.blank, "   ");
    assert_eq!(square.placeholder, Some(Palette16::Black));
    assert_eq!(rounded.placeholder, None);
}

#[test]
fn a_segment_that_only_leads_further_has_no_colour_in_a_list() {
    let rows = vec![flat("a/b", "1")];
    let mut out = Vec::new();
    render_range(&rows, 0, rows.len(), 0, "", &mut out);
    assert_eq!(out[0].label, "a");
    assert_eq!(out[0].value, "");
    assert_eq!(out[0].fg, None);
    let mut out = Vec::new();
    draw_range(&rows, 0, rows.len(), 0, "", &Glyphs::square(), &mut out);
    assert_eq!(out[0].fg, Some(Palette16::Black));
}
