//! The table as text: the rows are handed to `stanza`, whose console
//! renderer lays them out in two columns.

use vstd::prelude::*;
use stanza::renderer::console::{Console, Decor};
use stanza::renderer::Renderer;
use stanza::style::{HAlign, MinWidth, Palette16 as Shade, Styles as CellStyles, TextFg as Ink};
use stanza::table::{Cell, Col, Content as CellData, Row, Table};
use crate::render::{rows_view, RowView, TableRow};
use crate::style::Palette16;

verus! {

/// `stanza`'s table. Nothing of its inside is known here.
#[verifier::external_type_specification]
#[verifier::external_body]
pub struct ExTable(Table);

/// The rows that were pushed to a table, in their order: of each the text of
/// the left cell, the text of the right cell and the colour of the right
/// cell, as its position in the palette, where one was set.
pub uninterp spec fn table_rows(table: Table) -> Seq<(Seq<char>, Seq<char>, Option<u8>)>;

/// The least width of the left column that a table was made with.
pub uninterp spec fn table_label_width(table: Table) -> nat;

/// The text that `stanza`'s console renderer makes of a table of two
/// columns, the left one aligned left and at least `label_width` wide, the
/// right one aligned right, drawn without borders and with `separator`
/// between the columns.
pub uninterp spec fn console_text(
    rows: Seq<(Seq<char>, Seq<char>, Option<u8>)>,
    label_width: nat,
    separator: char,
) -> Seq<char>;

/// Least width of the column of names.
pub const LABEL_WIDTH: usize = 20;

/// What stands between the two columns.
pub const COLUMN_SEPARATOR: char = ' ';

/// Calls `Table::default` and `Table::with_cols`: an empty table of two
/// columns, the left one aligned left and at least `label_width` wide, the
/// right one aligned right.
#[verifier::external_body]
fn new_table(label_width: usize) -> (table: Table)
    ensures
        table_rows(table) == Seq::<(Seq<char>, Seq<char>, Option<u8>)>::empty(),
        table_label_width(table) == label_width,
{
    Table::default().with_cols(
        vec![
            Col::new(CellStyles::default().with(HAlign::Left).with(MinWidth(label_width))),
            Col::new(CellStyles::default().with(HAlign::Right)),
        ],
    )
}

/// Calls `Table::push_row` with a row of two cells: the table then holds one
/// row more, the last, made of `label`, `value` and the colour at position
/// `fg` of the palette, where one is given.
#[verifier::external_body]
fn push_row(table: &mut Table, label: &str, value: &str, fg: Option<u8>)
    requires
        fg matches Some(code) ==> code < 18,
    ensures
        table_rows(*final(table)) == table_rows(*old(table)).push((label@, value@, fg)),
        table_label_width(*final(table)) == table_label_width(*old(table)),
{
    let shades = [Shade::Black, Shade::Red, Shade::Green, Shade::Yellow, Shade::Blue, Shade::Magenta,
        Shade::Cyan, Shade::White, Shade::BrightBlack, Shade::BrightRed, Shade::BrightGreen,
        Shade::BrightYellow, Shade::BrightBlue, Shade::BrightMagenta, Shade::BrightCyan,
        Shade::BrightWhite, Shade::Default, Shade::Hidden];
    let right = match fg {
        Some(code) => CellStyles::default().with(Ink(shades[code as usize].clone())),
        None => CellStyles::default(),
    };
    let left = Cell::new(CellStyles::default(), CellData::Label(label.to_string()));
    let cells = vec![left, Cell::new(right, CellData::Label(value.to_string()))];
    table.push_row(Row::new(CellStyles::default(), cells));
}

/// Calls `Console::render` with a decor that draws neither the outer border
/// nor the lines between rows and puts `separator` between the columns. The
/// renderer refuses a table without rows.
#[verifier::external_body]
fn render_console(table: &Table, separator: char) -> (text: String)
    requires
        table_rows(*table).len() > 0,
    ensures
        text@ == console_text(table_rows(*table), table_label_width(*table), separator),
{
    let decor = Decor {
        up_thin_down_thin: separator,
        draw_outer_border: false,
        draw_inner_horizontal_border: false,
        ..Decor::default()
    };
    Console(decor).render(table)
}

/// The colour of a cell as its position in the palette.
pub open spec fn colour_code(fg: Option<Palette16>) -> Option<u8> {
    match fg {
        Some(colour) => Some(colour.spec_code()),
        None => None,
    }
}

/// The cells of the rows, as the renderer is given them.
pub open spec fn cells(rows: Seq<RowView>) -> Seq<(Seq<char>, Seq<char>, Option<u8>)> {
    Seq::new(rows.len(), |i: int| (rows[i].label, rows[i].value, colour_code(rows[i].fg)))
}

/// The text of a table with the given rows.
pub open spec fn table_text(rows: Seq<RowView>) -> Seq<char> {
    console_text(cells(rows), LABEL_WIDTH as nat, COLUMN_SEPARATOR)
}

/// Lays the rows out as a table of two columns.
pub fn render_rows(rows: &Vec<TableRow>) -> (text: String)
    requires
        rows.len() > 0,
    ensures
        text@ == table_text(rows_view(rows@)),
{
    let mut table = new_table(LABEL_WIDTH);
    let mut i: usize = 0;
    while i < rows.len()
        invariant
            i <= rows.len(),
            table_label_width(table) == LABEL_WIDTH,
            table_rows(table) == cells(rows_view(rows@)).take(i as int),
        decreases rows.len() - i,
    {
        let row = &rows[i];
        let fg = match row.fg {
            Some(colour) => Some(colour.code()),
            None => None,
        };
        push_row(&mut table, row.label.as_str(), row.value.as_str(), fg);
        i += 1;
        assert(table_rows(table) =~= cells(rows_view(rows@)).take(i as int));
    }
    assert(cells(rows_view(rows@)).take(i as int) =~= cells(rows_view(rows@)));
    render_console(&table, COLUMN_SEPARATOR)
}

} // verus!
