//! What `status` and the menu show for each unit: marks, colors, table rows,
//! compact lines and the summary counts.

use vstd::prelude::*;
use comfy_table::{Cell, Table};
use crate::table::{
    drawn_text, enforce_styling, force_no_tty, styling_enforced, tty_off, render, add_row, cell_fg, cell_view, new_cell, new_table, load_full_preset, round_corners, set_header,
    table_header, table_rows, table_style, Tint,
};
use crate::context::{comma_space, AppContext};
use crate::text::{join, nat_text, u64_text, strings_view};

verus! {

/// One unit as the status table and the menu show it.
#[derive(Debug)]
pub struct ServiceRow {
    /// The unit's name, without extension.
    pub unit: String,
    /// Whether the unit's quadlet is linked in the target directory.
    pub linked: bool,
    /// Whether `systemd --user` reported the unit active. It is asked only
    /// for linked units, and a unit counts as running only when it is also
    /// linked (see `is_running`).
    pub active: bool,
}

impl ServiceRow {
    /// A row for a unit, from whether it is linked and whether `systemctl`
    /// reported it active.
    pub fn new(unit: String, linked: bool, active: bool) -> (r: ServiceRow)
        ensures
            r.unit@ == unit@,
            r.linked == linked,
            r.active == active,
    {
        ServiceRow { unit, linked, active }
    }

    /// Whether the unit counts as running: linked and active.
    pub fn running(&self) -> (r: bool)
        ensures
            r == is_running(*self),
    {
        self.linked && self.active
    }
}

/// A unit runs when it is linked and active.
pub open spec fn is_running(row: ServiceRow) -> bool {
    row.linked && row.active
}

/// The link mark: ✅ linked, ❌ missing.
pub open spec fn link_mark(linked: bool) -> Seq<char> {
    if linked {
        "✅"@
    } else {
        "❌"@
    }
}

/// The state mark: 🟢 running, 🟡 stopped (linked but not active), ⚫ n/a.
pub open spec fn state_mark(row: ServiceRow) -> Seq<char> {
    if is_running(row) {
        "🟢"@
    } else if row.linked {
        "🟡"@
    } else {
        "⚫"@
    }
}

/// The color of the link mark.
pub open spec fn link_tint(linked: bool) -> Tint {
    if linked {
        Tint::Green
    } else {
        Tint::Red
    }
}

/// The color of the state.
pub open spec fn state_tint(row: ServiceRow) -> Tint {
    if is_running(row) {
        Tint::Green
    } else if row.linked {
        Tint::Yellow
    } else {
        Tint::DarkGrey
    }
}

/// The state as the menu spells it.
pub open spec fn state_words(row: ServiceRow) -> Seq<char> {
    if is_running(row) {
        "🟢 running"@
    } else if row.linked {
        "🟡 stopped"@
    } else {
        "⚫ missing"@
    }
}

/// The actions the menu offers for a row.
pub open spec fn action_hint(row: ServiceRow) -> Seq<char> {
    if is_running(row) {
        "p stop | r restart | l logs"@
    } else if row.linked {
        "s start | l logs"@
    } else {
        "s install+start"@
    }
}

/// One line of compact status: unit, link mark and state mark, separated by tabs.
pub open spec fn compact_line_text(row: ServiceRow) -> Seq<char> {
    row.unit@ + "\t"@ + link_mark(row.linked) + "\t"@ + state_mark(row)
}

/// The cells of row `i` of the status table.
pub open spec fn status_cells(i: int, row: ServiceRow) -> Seq<(Seq<char>, Option<Tint>)> {
    seq![
        (nat_text((i + 1) as nat), None),
        (link_mark(row.linked), Some(link_tint(row.linked))),
        (state_mark(row), Some(state_tint(row))),
        (row.unit@, None),
    ]
}

/// The cells of row `i` of the menu table.
pub open spec fn menu_cells(i: int, row: ServiceRow) -> Seq<(Seq<char>, Option<Tint>)> {
    seq![
        (nat_text((i + 1) as nat), None),
        (link_mark(row.linked), Some(link_tint(row.linked))),
        (state_words(row), Some(state_tint(row))),
        (action_hint(row), None),
        (row.unit@, None),
    ]
}

/// The rows of the status table.
pub open spec fn status_rows_of(rows: Seq<ServiceRow>) -> Seq<Seq<(Seq<char>, Option<Tint>)>> {
    Seq::new(rows.len(), |i: int| status_cells(i, rows[i]))
}

/// The rows of the menu table.
pub open spec fn menu_rows_of(rows: Seq<ServiceRow>) -> Seq<Seq<(Seq<char>, Option<Tint>)>> {
    Seq::new(rows.len(), |i: int| menu_cells(i, rows[i]))
}

/// The header of the status table.
pub open spec fn status_header() -> Seq<Seq<char>> {
    seq!["#"@, "Link"@, "State"@, "Unit"@]
}

/// The header of the menu table.
pub open spec fn menu_header() -> Seq<Seq<char>> {
    seq!["#"@, "Link"@, "State"@, "Action"@, "Unit"@]
}

/// The compact status line of a row.
pub fn compact_line(row: &ServiceRow) -> (r: String)
    ensures
        r@ == compact_line_text(*row),
{
    let mut out = String::from_str(row.unit.as_str());
    out.append("\t");
    out.append(if row.linked { "✅" } else { "❌" });
    out.append("\t");
    out.append(
        if row.running() {
            "🟢"
        } else if row.linked {
            "🟡"
        } else {
            "⚫"
        },
    );
    out
}

fn link_text(linked: bool) -> (r: &'static str)
    ensures
        r@ == link_mark(linked),
{
    if linked {
        "✅"
    } else {
        "❌"
    }
}

fn link_color(linked: bool) -> (r: Tint)
    ensures
        r == link_tint(linked),
{
    if linked {
        Tint::Green
    } else {
        Tint::Red
    }
}

fn state_color(row: &ServiceRow) -> (r: Tint)
    ensures
        r == state_tint(*row),
{
    if row.running() {
        Tint::Green
    } else if row.linked {
        Tint::Yellow
    } else {
        Tint::DarkGrey
    }
}

/// The style both tables are drawn in: comfy-table's `UTF8_FULL` preset
/// with the corners rounded (`UTF8_ROUND_CORNERS`).
pub open spec fn rounded_full_style() -> Seq<char> {
    "││──╞═╪╡┆╌┼├┤┬┴╭╮╰╯"@
}

fn styled_table(titles: Vec<&str>) -> (t: Table)
    ensures
        table_header(t) == titles@.map_values(|s: &str| s@),
        table_rows(t) == Seq::<Seq<(Seq<char>, Option<Tint>)>>::empty(),
        table_style(t) == rounded_full_style(),
        !tty_off(t),
        !styling_enforced(t),
{
    let mut t = new_table();
    load_full_preset(&mut t);
    round_corners(&mut t);
    proof {
        reveal_strlit("││──╞═╪╡┆╌┼├┤┬┴┌┐└┘");
        reveal_strlit("╭╮╰╯");
        reveal_strlit("││──╞═╪╡┆╌┼├┤┬┴╭╮╰╯");
        assert(table_style(t) =~= rounded_full_style());
    }
    set_header(&mut t, titles);
    t
}

/// The status table, in the rounded full style: for each unit its number,
/// link mark, state mark (both colored) and name.
pub fn status_table(rows: &[ServiceRow]) -> (t: Table)
    ensures
        table_header(t) == status_header(),
        table_rows(t) == status_rows_of(rows@),
        table_style(t) == rounded_full_style(),
        !tty_off(t),
        !styling_enforced(t),
{
    let titles = vec!["#", "Link", "State", "Unit"];
    let mut t = styled_table(titles);
    assert(titles@.map_values(|s: &str| s@) =~= status_header());
    let n = rows.len();
    let mut i: usize = 0;
    while i < n
        invariant
            n == rows@.len(),
            i <= n,
            table_header(t) == status_header(),
            table_rows(t) == Seq::new(i as nat, |k: int| status_cells(k, rows@[k])),
            table_style(t) == rounded_full_style(),
            !tty_off(t),
            !styling_enforced(t),
        decreases n - i,
    {
        let row = &rows[i];
        let number = u64_text((i + 1) as u64);
        let mut cells: Vec<Cell> = Vec::new();
        cells.push(new_cell(number.as_str()));
        cells.push(cell_fg(new_cell(link_text(row.linked)), link_color(row.linked)));
        let state = if row.running() {
            "🟢"
        } else if row.linked {
            "🟡"
        } else {
            "⚫"
        };
        cells.push(cell_fg(new_cell(state), state_color(row)));
        cells.push(new_cell(row.unit.as_str()));
        assert(cells@.map_values(|c: Cell| cell_view(c)) =~= status_cells(i as int, rows@[i as int]));
        add_row(&mut t, cells);
        assert(table_rows(t) =~= Seq::new((i + 1) as nat, |k: int| status_cells(k, rows@[k])));
        i = i + 1;
    }
    t
}

/// The menu table, in the rounded full style: for each unit its number, link
/// mark, state and offered actions, and name.
pub fn menu_table(rows: &[ServiceRow]) -> (t: Table)
    ensures
        table_header(t) == menu_header(),
        table_rows(t) == menu_rows_of(rows@),
        table_style(t) == rounded_full_style(),
        !tty_off(t),
        !styling_enforced(t),
{
    let titles = vec!["#", "Link", "State", "Action", "Unit"];
    let mut t = styled_table(titles);
    assert(titles@.map_values(|s: &str| s@) =~= menu_header());
    let n = rows.len();
    let mut i: usize = 0;
    while i < n
        invariant
            n == rows@.len(),
            i <= n,
            table_header(t) == menu_header(),
            table_rows(t) == Seq::new(i as nat, |k: int| menu_cells(k, rows@[k])),
            table_style(t) == rounded_full_style(),
            !tty_off(t),
            !styling_enforced(t),
        decreases n - i,
    {
        let row = &rows[i];
        let number = u64_text((i + 1) as u64);
        let state = if row.running() {
            "🟢 running"
        } else if row.linked {
            "🟡 stopped"
        } else {
            "⚫ missing"
        };
        let hint = if row.running() {
            "p stop | r restart | l logs"
        } else if row.linked {
            "s start | l logs"
        } else {
            "s install+start"
        };
        let mut cells: Vec<Cell> = Vec::new();
        cells.push(new_cell(number.as_str()));
        cells.push(cell_fg(new_cell(link_text(row.linked)), link_color(row.linked)));
        cells.push(cell_fg(new_cell(state), state_color(row)));
        cells.push(new_cell(hint));
        cells.push(new_cell(row.unit.as_str()));
        assert(cells@.map_values(|c: Cell| cell_view(c)) =~= menu_cells(i as int, rows@[i as int]));
        add_row(&mut t, cells);
        assert(table_rows(t) =~= Seq::new((i + 1) as nat, |k: int| menu_cells(k, rows@[k])));
        i = i + 1;
    }
    t
}

/// Switches off the table's own terminal detection, and enforces styling when
/// `colored`.
fn fix_styling(t: &mut Table, colored: bool)
    requires
        !styling_enforced(*old(t)),
    ensures
        table_header(*final(t)) == table_header(*old(t)),
        table_rows(*final(t)) == table_rows(*old(t)),
        table_style(*final(t)) == table_style(*old(t)),
        tty_off(*final(t)),
        styling_enforced(*final(t)) == colored,
{
    force_no_tty(t);
    if colored {
        enforce_styling(t);
    }
}

/// The status table, drawn from a table that holds exactly the header and
/// cells of `status_table`, with terminal detection switched off and styling
/// enforced when `colored` (pass whether standard output is a terminal, which
/// is what the table would look at by itself). Without colors the text is
/// that table's drawing; with colors the drawing also follows the environment
/// and is not stated.
pub fn draw_status_table(rows: &[ServiceRow], colored: bool) -> (r: String)
    ensures
        exists|t: Table|
            #![trigger drawn_text(t)]
            table_header(t) == status_header() && table_rows(t) == status_rows_of(rows@) && table_style(t) == rounded_full_style() && tty_off(t) && styling_enforced(t) == colored && (!colored ==> r@ == drawn_text(t)),
{
    let mut t = status_table(rows);
    fix_styling(&mut t, colored);
    let r = render(&t);
    assert(drawn_text(t) == drawn_text(t));
    if !colored {
        assert(drawn_text(t) == r@);
    }
    r
}

/// The menu table, drawn from a table that holds exactly the header and cells
/// of `menu_table`, with terminal detection switched off and styling enforced
/// when `colored`. Without colors the text is that table's drawing; with
/// colors it is not stated.
pub fn draw_menu_table(rows: &[ServiceRow], colored: bool) -> (r: String)
    ensures
        exists|t: Table|
            #![trigger drawn_text(t)]
            table_header(t) == menu_header() && table_rows(t) == menu_rows_of(rows@) && table_style(t) == rounded_full_style() && tty_off(t) && styling_enforced(t) == colored && (!colored ==> r@ == drawn_text(t)),
{
    let mut t = menu_table(rows);
    fix_styling(&mut t, colored);
    let r = render(&t);
    assert(drawn_text(t) == drawn_text(t));
    if !colored {
        assert(drawn_text(t) == r@);
    }
    r
}

/// How many rows are linked, running, stopped (linked but not running) and
/// missing (not linked).
pub open spec fn tally(rows: Seq<ServiceRow>) -> (nat, nat, nat, nat)
    decreases rows.len(),
{
    if rows.len() == 0 {
        (0, 0, 0, 0)
    } else {
        let (l, r, s, m) = tally(rows.drop_last());
        let x = rows.last();
        (
            l + if x.linked { 1nat } else { 0nat },
            r + if is_running(x) { 1nat } else { 0nat },
            s + if !is_running(x) && x.linked { 1nat } else { 0nat },
            m + if !x.linked { 1nat } else { 0nat },
        )
    }
}

/// The counts shown in the status summary.
#[derive(Debug)]
pub struct StatusCounts {
    /// Units with a link in the target directory.
    pub linked: usize,
    /// Units active in `systemd --user`.
    pub running: usize,
    /// Linked units that are not active.
    pub stopped: usize,
    /// Units without a link.
    pub missing: usize,
}

/// Counts linked, running, stopped and missing units.
pub fn count_status(rows: &[ServiceRow]) -> (c: StatusCounts)
    ensures
        (c.linked as nat, c.running as nat, c.stopped as nat, c.missing as nat) == tally(rows@),
        c.linked + c.missing == rows@.len(),
        c.running + c.stopped == c.linked,
{
    let n = rows.len();
    let mut c = StatusCounts { linked: 0, running: 0, stopped: 0, missing: 0 };
    let mut i: usize = 0;
    assert(rows@.take(0).len() == 0);
    while i < n
        invariant
            n == rows@.len(),
            i <= n,
            (c.linked as nat, c.running as nat, c.stopped as nat, c.missing as nat) == tally(rows@.take(i as int)),
            c.linked <= i && c.running <= i && c.stopped <= i && c.missing <= i,
        decreases n - i,
    {
        let row = &rows[i];
        assert(rows@.take(i + 1).drop_last() =~= rows@.take(i as int));
        assert(rows@.take(i + 1).last() == rows@[i as int]);
        if row.linked {
            c.linked = c.linked + 1;
        } else {
            c.missing = c.missing + 1;
        }
        if row.running() {
            c.running = c.running + 1;
        } else if row.linked {
            c.stopped = c.stopped + 1;
        }
        i = i + 1;
    }
    assert(rows@.take(n as int) =~= rows@);
    proof {
        lemma_status_counts_add_up(rows@);
    }
    c
}

/// Every unit is either linked or missing, and every linked unit is either
/// running or stopped; only linked units run.
pub proof fn lemma_status_counts_add_up(rows: Seq<ServiceRow>)
    ensures
        tally(rows).0 + tally(rows).3 == rows.len(),
        tally(rows).1 + tally(rows).2 == tally(rows).0,
    decreases rows.len(),
{
    if rows.len() > 0 {
        lemma_status_counts_add_up(rows.drop_last());
    }
}

/// The lines after the status table: a blank line, then the summary.
pub open spec fn summary_text(total: nat, counts: (nat, nat, nat, nat)) -> Seq<Seq<char>> {
    seq![
        Seq::<char>::empty(),
        "Summary:"@,
        "  total   = "@ + nat_text(total) + " (container units found)"@,
        "  linked  = "@ + nat_text(counts.0) + " ✅ (has symlink in target dir)"@,
        "  running = "@ + nat_text(counts.1) + " 🟢 (active in systemd --user)"@,
        "  stopped = "@ + nat_text(counts.2) + " 🟡 (linked but not active)"@,
        "  missing = "@ + nat_text(counts.3) + " ❌ (no symlink in target dir)"@,
    ]
}

fn count_line(label: &str, count: usize, note: &str) -> (r: String)
    ensures
        r@ == label@ + nat_text(count as nat) + note@,
{
    let mut out = String::from_str(label);
    let digits = u64_text(count as u64);
    out.append(digits.as_str());
    out.append(note);
    out
}

/// The summary printed after the status table.
pub fn status_summary(rows: &[ServiceRow]) -> (r: Vec<String>)
    ensures
        strings_view(r@) == summary_text(rows@.len(), tally(rows@)),
{
    let c = count_status(rows);
    let mut lines: Vec<String> = Vec::new();
    lines.push(String::new());
    lines.push(String::from_str("Summary:"));
    lines.push(count_line("  total   = ", rows.len(), " (container units found)"));
    lines.push(count_line("  linked  = ", c.linked, " ✅ (has symlink in target dir)"));
    lines.push(count_line("  running = ", c.running, " 🟢 (active in systemd --user)"));
    lines.push(count_line("  stopped = ", c.stopped, " 🟡 (linked but not active)"));
    lines.push(count_line("  missing = ", c.missing, " ❌ (no symlink in target dir)"));
    assert(strings_view(lines@) =~= summary_text(rows@.len(), tally(rows@)));
    lines
}

/// The lines before the status table or the menu: where quadlets come from
/// and go to, then a blank line.
pub open spec fn location_text(sources: Seq<char>, target: Seq<char>) -> Seq<Seq<char>> {
    seq!["Source: "@ + sources, "Target: "@ + target, Seq::<char>::empty()]
}

/// The lines naming the source and target directories.
pub fn location_lines(ctx: &AppContext) -> (r: Vec<String>)
    ensures
        strings_view(r@) == location_text(join(strings_view(ctx.source_dirs@), comma_space()), ctx.target_dir@),
{
    let sources = ctx.source_display();
    let mut a = String::from_str("Source: ");
    a.append(sources.as_str());
    let mut b = String::from_str("Target: ");
    b.append(ctx.target_dir.as_str());
    let mut lines: Vec<String> = Vec::new();
    lines.push(a);
    lines.push(b);
    lines.push(String::new());
    assert(strings_view(lines@) =~= location_text(join(strings_view(ctx.source_dirs@), comma_space()), ctx.target_dir@));
    lines
}

/// What is said when there are no units.
pub fn no_units_line(ctx: &AppContext) -> (r: String)
    ensures
        r@ == "No container units found in "@ + join(strings_view(ctx.source_dirs@), comma_space()),
{
    let sources = ctx.source_display();
    let mut out = String::from_str("No container units found in ");
    out.append(sources.as_str());
    out
}

/// The lines `status` prints: when there are no units, a line saying so;
/// in compact form one line per unit; else where quadlets come from and go
/// to, the drawn table, and the summary.
pub open spec fn status_text(sources: Seq<char>, target: Seq<char>, rows: Seq<ServiceRow>, compact: bool, table: Seq<char>) -> Seq<Seq<char>> {
    if rows.len() == 0 {
        seq!["No container units found in "@ + sources]
    } else if compact {
        rows.map_values(|r: ServiceRow| compact_line_text(r))
    } else {
        location_text(sources, target) + seq![table] + summary_text(rows.len(), tally(rows))
    }
}

/// The lines `status` prints, given the drawn table.
pub fn status_lines(ctx: &AppContext, rows: &[ServiceRow], compact: bool, table: &str) -> (r: Vec<String>)
    ensures
        strings_view(r@) == status_text(
            join(strings_view(ctx.source_dirs@), comma_space()),
            ctx.target_dir@,
            rows@,
            compact,
            table@,
        ),
{
    if rows.len() == 0 {
        let mut out: Vec<String> = Vec::new();
        out.push(no_units_line(ctx));
        assert(strings_view(out@) =~= seq!["No container units found in "@ + join(strings_view(ctx.source_dirs@), comma_space())]);
        return out;
    }
    if compact {
        let n = rows.len();
        let mut out: Vec<String> = Vec::new();
        let mut i: usize = 0;
        while i < n
            invariant
                n == rows@.len(),
                i <= n,
                out@.len() == i,
                forall|j: int| 0 <= j < i ==> #[trigger] out@[j]@ == compact_line_text(rows@[j]),
            decreases n - i,
        {
            out.push(compact_line(&rows[i]));
            i = i + 1;
        }
        assert(strings_view(out@) =~= rows@.map_values(|r: ServiceRow| compact_line_text(r)));
        return out;
    }
    let mut out = location_lines(ctx);
    let ghost head = strings_view(out@);
    out.push(String::from_str(table));
    let summary = status_summary(rows);
    let ghost mid = strings_view(out@);
    assert(mid =~= head + seq![table@]);
    let m = summary.len();
    let mut i: usize = 0;
    while i < m
        invariant
            m == summary@.len(),
            i <= m,
            strings_view(out@) == mid + strings_view(summary@).take(i as int),
        decreases m - i,
    {
        let ghost before = out@;
        out.push(summary[i].clone());
        assert(strings_view(out@) =~= strings_view(before).push(summary@[i as int]@));
        assert(strings_view(summary@).take(i + 1) =~= strings_view(summary@).take(i as int).push(summary@[i as int]@));
        assert(strings_view(out@) =~= mid + strings_view(summary@).take(i + 1));
        i = i + 1;
    }
    assert(strings_view(summary@).take(m as int) =~= strings_view(summary@));
    out
}

/// The lines `status` prints. The table is drawn (with its colors when
/// `colored`) only for the full form, and its drawing is not stated here;
/// everything else is exactly `status_text`.
pub fn status_report(ctx: &AppContext, rows: &[ServiceRow], compact: bool, colored: bool) -> (r: Vec<String>)
    ensures
        exists|t: Seq<char>| strings_view(r@) == status_text(
            join(strings_view(ctx.source_dirs@), comma_space()),
            ctx.target_dir@,
            rows@,
            compact,
            t,
        ),
        rows@.len() == 0 || compact ==> strings_view(r@) == status_text(
            join(strings_view(ctx.source_dirs@), comma_space()),
            ctx.target_dir@,
            rows@,
            compact,
            Seq::empty(),
        ),
        !(rows@.len() == 0 || compact) ==> exists|t: Table|
            #![trigger drawn_text(t)]
            table_header(t) == status_header() && table_rows(t) == status_rows_of(rows@) && table_style(t) == rounded_full_style() && tty_off(t) && styling_enforced(t) == colored && (!colored ==> strings_view(r@)
                == status_text(
                join(strings_view(ctx.source_dirs@), comma_space()),
                ctx.target_dir@,
                rows@,
                compact,
                drawn_text(t),
            )),
{
    if rows.len() == 0 || compact {
        status_lines(ctx, rows, compact, "")
    } else {
        let mut t = status_table(rows);
        fix_styling(&mut t, colored);
        let table = render(&t);
        let r = status_lines(ctx, rows, compact, table.as_str());
        assert(drawn_text(t) == drawn_text(t));
        r
    }
}

/// The lines of the menu screen for the rows: as `menu_screen`, with the
/// menu table drawn (with its colors when `colored`). Without colors the
/// table line is that table's drawing; with colors it is not stated.
pub fn menu_report(ctx: &AppContext, rows: &[ServiceRow], colored: bool) -> (r: Vec<String>)
    ensures
        exists|t: Table|
            #![trigger drawn_text(t)]
            table_header(t) == menu_header() && table_rows(t) == menu_rows_of(rows@) && table_style(t) == rounded_full_style() && tty_off(t) && styling_enforced(t) == colored && (!colored ==> strings_view(r@)
                == menu_screen_text(
                join(strings_view(ctx.source_dirs@), comma_space()),
                ctx.target_dir@,
                drawn_text(t),
            )),
        exists|x: Seq<char>| strings_view(r@) == menu_screen_text(
            join(strings_view(ctx.source_dirs@), comma_space()),
            ctx.target_dir@,
            x,
        ),
{
    let mut t = menu_table(rows);
    fix_styling(&mut t, colored);
    let table = render(&t);
    let r = menu_screen(ctx, table.as_str());
    assert(drawn_text(t) == drawn_text(t));
    r
}

/// The lines of the menu screen before the prompt: where quadlets come from
/// and go to, the drawn table, a blank line and the list of actions.
pub open spec fn menu_screen_text(sources: Seq<char>, target: Seq<char>, table: Seq<char>) -> Seq<Seq<char>> {
    location_text(sources, target) + seq![
        table,
        Seq::<char>::empty(),
        "Actions: number = toggle, s = start, p = stop, r = restart, l = logs, q = quit"@,
    ]
}

/// The lines of the menu screen, given the drawn table.
pub fn menu_screen(ctx: &AppContext, table: &str) -> (r: Vec<String>)
    ensures
        strings_view(r@) == menu_screen_text(join(strings_view(ctx.source_dirs@), comma_space()), ctx.target_dir@, table@),
{
    let mut out = location_lines(ctx);
    out.push(String::from_str(table));
    out.push(String::new());
    out.push(String::from_str("Actions: number = toggle, s = start, p = stop, r = restart, l = logs, q = quit"));
    assert(strings_view(out@) =~= menu_screen_text(join(strings_view(ctx.source_dirs@), comma_space()), ctx.target_dir@, table@));
    out
}

} // verus!
