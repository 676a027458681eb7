//! Tables drawn with `comfy_table`: which headers and cells they hold.

use vstd::prelude::*;
use comfy_table::{Cell, Color, Table};
use comfy_table::modifiers::UTF8_ROUND_CORNERS;
use comfy_table::presets::UTF8_FULL;

verus! {

#[verifier::external_type_specification]
#[verifier::external_body]
pub struct ExTable(comfy_table::Table);

#[verifier::external_type_specification]
#[verifier::external_body]
pub struct ExCell(comfy_table::Cell);

#[verifier::external_type_specification]
#[verifier::external_body]
pub struct ExColor(comfy_table::Color);

/// The text colors the tables use.
#[derive(Clone, Copy, PartialEq, Eq, Structural)]
pub enum Tint {
    Green,
    Red,
    Yellow,
    DarkGrey,
}

/// The texts of a table's header cells; empty when no header is set.
pub uninterp spec fn table_header(t: Table) -> Seq<Seq<char>>;

/// The rows of a table: for each cell its text and its text color.
pub uninterp spec fn table_rows(t: Table) -> Seq<Seq<(Seq<char>, Option<Tint>)>>;

/// The text a cell holds (its lines joined by '\n', as `Cell::content` gives it).
pub uninterp spec fn cell_text(c: Cell) -> Seq<char>;

/// The text color of a cell.
pub uninterp spec fn cell_tint(c: Cell) -> Option<Tint>;

/// Whether the table's detection of a terminal is switched off (set by
/// `Table::force_no_tty`), so that drawing it no longer looks at standard output.
pub uninterp spec fn tty_off(t: Table) -> bool;

/// Whether the table draws its colors whatever the terminal (set by
/// `Table::enforce_styling`).
pub uninterp spec fn styling_enforced(t: Table) -> bool;

/// The table's drawing style as a preset string, as
/// `Table::current_style_as_preset` gives it: one character for each of the
/// 19 parts of the frame (borders, lines, intersections, corners), a space
/// where a part is not drawn.
pub uninterp spec fn table_style(t: Table) -> Seq<char>;

/// The text `Table`'s `Display` draws for a table whose terminal detection is
/// switched off and that does not enforce styling: then no colors are drawn
/// and the text is a function of the table alone.
pub uninterp spec fn drawn_text(t: Table) -> Seq<char>;

/// Whether two tables agree on everything but their drawing style.
pub open spec fn same_content(a: Table, b: Table) -> bool {
    &&& table_header(a) == table_header(b)
    &&& table_rows(a) == table_rows(b)
    &&& tty_off(a) == tty_off(b)
    &&& styling_enforced(a) == styling_enforced(b)
}

/// A cell as its text and color.
pub open spec fn cell_view(c: Cell) -> (Seq<char>, Option<Tint>) {
    (cell_text(c), cell_tint(c))
}

/// Calls `Table::new`. Claimed: the new table has no header and no rows,
/// looks for a terminal when drawn, and does not enforce styling.
#[verifier::external_body]
pub(crate) fn new_table() -> (t: Table)
    ensures
        table_header(t) == Seq::<Seq<char>>::empty(),
        table_rows(t) == Seq::<Seq<(Seq<char>, Option<Tint>)>>::empty(),
        !tty_off(t),
        !styling_enforced(t),
{
    Table::new()
}

/// Calls `Table::load_preset` with `UTF8_FULL`. Claimed: the style becomes
/// that preset (it sets all 19 parts, none blank); header, rows and terminal
/// settings stay.
#[verifier::external_body]
pub(crate) fn load_full_preset(t: &mut Table)
    ensures
        same_content(*final(t), *old(t)),
        table_style(*final(t)) == "││──╞═╪╡┆╌┼├┤┬┴┌┐└┘"@,
{
    t.load_preset(UTF8_FULL);
}

/// Calls `Table::apply_modifier` with `UTF8_ROUND_CORNERS`. Claimed: the
/// modifier skips the first 15 parts and sets the four corners to rounded
/// ones; header, rows and terminal settings stay.
#[verifier::external_body]
pub(crate) fn round_corners(t: &mut Table)
    ensures
        same_content(*final(t), *old(t)),
        table_style(*final(t)) == table_style(*old(t)).take(15) + "╭╮╰╯"@,
{
    t.apply_modifier(UTF8_ROUND_CORNERS);
}

/// Calls `Table::set_header` with cells made from the titles. Claimed: the
/// header holds the titles; rows, settings and style stay.
#[verifier::external_body]
pub(crate) fn set_header(t: &mut Table, titles: Vec<&str>)
    ensures
        table_header(*final(t)) == titles@.map_values(|s: &str| s@),
        table_rows(*final(t)) == table_rows(*old(t)),
        tty_off(*final(t)) == tty_off(*old(t)),
        styling_enforced(*final(t)) == styling_enforced(*old(t)),
        table_style(*final(t)) == table_style(*old(t)),
{
    t.set_header(titles);
}

/// Calls `Cell::new` on a text. Claimed: the cell holds that text, with no color.
#[verifier::external_body]
pub(crate) fn new_cell(text: &str) -> (c: Cell)
    ensures
        cell_text(c) == text@,
        cell_tint(c) == None::<Tint>,
{
    Cell::new(text)
}

/// Calls `Cell::fg`. Claimed: the cell keeps its text and takes the color.
#[verifier::external_body]
pub(crate) fn cell_fg(c: Cell, tint: Tint) -> (r: Cell)
    ensures
        cell_text(r) == cell_text(c),
        cell_tint(r) == Some(tint),
{
    let color = match tint {
        Tint::Green => Color::Green,
        Tint::Red => Color::Red,
        Tint::Yellow => Color::Yellow,
        Tint::DarkGrey => Color::DarkGrey,
    };
    c.fg(color)
}

/// Calls `Table::add_row`. Claimed: the cells become the last row; the
/// header, settings and style stay.
#[verifier::external_body]
pub(crate) fn add_row(t: &mut Table, cells: Vec<Cell>)
    ensures
        table_header(*final(t)) == table_header(*old(t)),
        table_rows(*final(t)) == table_rows(*old(t)).push(cells@.map_values(|c: Cell| cell_view(c))),
        tty_off(*final(t)) == tty_off(*old(t)),
        styling_enforced(*final(t)) == styling_enforced(*old(t)),
        table_style(*final(t)) == table_style(*old(t)),
{
    t.add_row(cells);
}

/// Calls `Table::force_no_tty`. Claimed: the table no longer looks for a
/// terminal when drawn; header, rows, enforced styling and style stay.
#[verifier::external_body]
pub(crate) fn force_no_tty(t: &mut Table)
    ensures
        tty_off(*final(t)),
        table_header(*final(t)) == table_header(*old(t)),
        table_rows(*final(t)) == table_rows(*old(t)),
        styling_enforced(*final(t)) == styling_enforced(*old(t)),
        table_style(*final(t)) == table_style(*old(t)),
{
    t.force_no_tty();
}

/// Calls `Table::enforce_styling`. Claimed: the table draws its colors;
/// header, rows, terminal detection and style stay.
#[verifier::external_body]
pub(crate) fn enforce_styling(t: &mut Table)
    ensures
        styling_enforced(*final(t)),
        table_header(*final(t)) == table_header(*old(t)),
        table_rows(*final(t)) == table_rows(*old(t)),
        tty_off(*final(t)) == tty_off(*old(t)),
        table_style(*final(t)) == table_style(*old(t)),
{
    t.enforce_styling();
}

/// Draws a table (its `Display`). Claimed: with terminal detection switched
/// off and styling not enforced, no colors are drawn and the text depends on
/// the table alone. Otherwise nothing is claimed: whether and how colors are
/// drawn then follows standard output and the environment (`NO_COLOR`).
#[verifier::external_body]
pub(crate) fn render(t: &Table) -> (r: String)
    ensures
        tty_off(*t) && !styling_enforced(*t) ==> r@ == drawn_text(*t),
{
    t.to_string()
}

} // verus!
