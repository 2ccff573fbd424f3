//! The report formatter: per-cell truncation, a head/tail window with an
//! elision marker over long diff sequences, and a count summary.

use vstd::prelude::*;
use crate::text::{strs, truncated, ellipsis, decimal, truncate_string, decimal_string};
use crate::engine::{DiffRow, DiffView, diffs_view};

verus! {

/// The text of a grid of cells as tabled draws it, the first row being the
/// header.
pub uninterp spec fn rendered_grid(rows: Seq<Seq<Seq<char>>>) -> Seq<char>;

/// The view of a grid of owned cells.
pub open spec fn grid_view(rows: Seq<Vec<String>>) -> Seq<Seq<Seq<char>>> {
    rows.map_values(|row: Vec<String>| strs(row@))
}

/// Relies on tabled's `Builder::from(Vec<Vec<String>>)`, `Builder::build` and
/// `Table`'s `Display`: the drawn table depends on the cells alone.
#[verifier::external_body]
fn render_grid(rows: Vec<Vec<String>>) -> (r: String)
    ensures
        r@ == rendered_grid(grid_view(rows@)),
{
    tabled::builder::Builder::from(rows).build().to_string()
}

/// The header row of a drawn diff table.
pub open spec fn table_header() -> Seq<Seq<char>> {
    seq!["key"@, "column"@, "file1"@, "file2"@]
}

/// The cells of one record.
pub open spec fn record_cells(d: DiffView) -> Seq<Seq<char>> {
    seq![d.key, d.column, d.file1, d.file2]
}

/// The grid of a sequence of records under the table header.
pub open spec fn diff_grid(ds: Seq<DiffView>) -> Seq<Seq<Seq<char>>> {
    seq![table_header()] + ds.map_values(|d: DiffView| record_cells(d))
}

/// A record with each of its cells truncated to `width` characters.
pub open spec fn truncated_record(d: DiffView, width: nat) -> DiffView {
    DiffView {
        key: truncated(d.key, width),
        column: truncated(d.column, width),
        file1: truncated(d.file1, width),
        file2: truncated(d.file2, width),
    }
}

/// The records shown before the elision marker.
pub open spec fn head_rows(max_rows: nat) -> nat {
    max_rows / 2
}

/// The records shown after the elision marker.
pub open spec fn tail_rows(max_rows: nat) -> nat {
    if max_rows >= head_rows(max_rows) + 1 {
        (max_rows - head_rows(max_rows) - 1) as nat
    } else {
        0
    }
}

/// The marker that stands for `hidden` records left out of the display.
pub open spec fn elision_marker(hidden: nat) -> DiffView {
    DiffView {
        key: ellipsis(),
        column: "... ("@ + decimal(hidden) + " more rows) ..."@,
        file1: ellipsis(),
        file2: ellipsis(),
    }
}

/// The records displayed for `ds`: all of them, cells truncated, when at most
/// `max_rows`; else the first `max_rows / 2`, the elision marker, and the
/// last `max_rows - max_rows / 2 - 1`.
pub open spec fn display_records(ds: Seq<DiffView>, max_rows: nat, width: nat) -> Seq<DiffView> {
    let t = ds.map_values(|d: DiffView| truncated_record(d, width));
    if ds.len() <= max_rows {
        t
    } else {
        t.take(head_rows(max_rows) as int) + seq![elision_marker((ds.len() - max_rows) as nat)]
            + t.skip(t.len() - tail_rows(max_rows))
    }
}

/// The summary below a drawn table of `total` records.
pub open spec fn summary_text(total: nat, max_rows: nat) -> Seq<char> {
    if total > max_rows {
        "\n\n📊 Summary: "@ + decimal(total) + " total differences found"@ + "\n   Showing "@
            + decimal(max_rows) + " rows (use --max-rows to adjust or --no-truncate to show all)"@
    } else {
        "\n\n📊 Total differences: "@ + decimal(total)
    }
}

/// Shown when there is no difference.
pub open spec fn no_differences() -> Seq<char> {
    "✅ No differences found."@
}

/// The whole report on `ds`.
pub open spec fn report_text(ds: Seq<DiffView>, max_rows: nat, width: nat, no_truncate: bool) -> Seq<char> {
    if no_truncate {
        rendered_grid(diff_grid(ds))
    } else if ds.len() == 0 {
        no_differences()
    } else {
        rendered_grid(diff_grid(display_records(ds, max_rows, width))) + summary_text(
            ds.len(),
            max_rows,
        )
    }
}

/// `d` with each cell truncated to `width` characters.
pub fn truncate_record(d: &DiffRow, width: usize) -> (r: DiffRow)
    ensures
        r@ == truncated_record(d@, width as nat),
{
    DiffRow {
        key: truncate_string(d.key.as_str(), width),
        column: truncate_string(d.column.as_str(), width),
        file1: truncate_string(d.file1.as_str(), width),
        file2: truncate_string(d.file2.as_str(), width),
    }
}

/// The elision marker for `hidden` records.
pub fn make_elision_marker(hidden: usize) -> (r: DiffRow)
    ensures
        r@ == elision_marker(hidden as nat),
{
    proof {
        reveal_strlit("...");
    }
    let mut column = String::from_str("... (");
    let n = decimal_string(hidden);
    column.append(n.as_str());
    column.append(" more rows) ...");
    assert("..."@ =~= ellipsis());
    DiffRow {
        key: String::from_str("..."),
        column,
        file1: String::from_str("..."),
        file2: String::from_str("..."),
    }
}

/// The records displayed for `diffs` under `max_rows` and `max_cell_width`.
pub fn display_rows(diffs: &Vec<DiffRow>, max_rows: usize, max_cell_width: usize) -> (r: Vec<
    DiffRow,
>)
    ensures
        diffs_view(r@) == display_records(diffs_view(diffs@), max_rows as nat, max_cell_width as nat),
{
    let ghost ds = diffs_view(diffs@);
    let ghost t = ds.map_values(|d: DiffView| truncated_record(d, max_cell_width as nat));
    let total = diffs.len();
    let head: usize = max_rows / 2;
    let tail: usize = if max_rows >= head + 1 { max_rows - head - 1 } else { 0 };
    let shown_head: usize = if total <= max_rows { total } else { head };
    let mut out: Vec<DiffRow> = Vec::new();
    let mut i: usize = 0;
    while i < shown_head
        invariant
            shown_head <= total == diffs.len(),
            i <= shown_head,
            ds == diffs_view(diffs@),
            t == ds.map_values(|d: DiffView| truncated_record(d, max_cell_width as nat)),
            diffs_view(out@) == t.take(i as int),
        decreases shown_head - i,
    {
        let ghost old_out = out@;
        let d = truncate_record(&diffs[i], max_cell_width);
        out.push(d);
        assert(diffs_view(out@) =~= diffs_view(old_out).push(d@));
        i = i + 1;
        assert(diffs_view(out@) =~= t.take(i as int));
    }
    if total <= max_rows {
        assert(t.take(total as int) =~= t);
        return out;
    }
    let ghost head_part = out@;
    out.push(make_elision_marker(total - max_rows));
    let ghost marked = out@;
    assert(diffs_view(marked) =~= t.take(head as int) + seq![elision_marker((total - max_rows) as nat)]);
    let start: usize = total - tail;
    let mut k: usize = start;
    while k < total
        invariant
            start <= k <= total == diffs.len(),
            ds == diffs_view(diffs@),
            t == ds.map_values(|d: DiffView| truncated_record(d, max_cell_width as nat)),
            diffs_view(out@) == diffs_view(marked) + t.subrange(start as int, k as int),
        decreases total - k,
    {
        let ghost old_out = out@;
        let d = truncate_record(&diffs[k], max_cell_width);
        out.push(d);
        assert(diffs_view(out@) =~= diffs_view(old_out).push(d@));
        k = k + 1;
        assert(diffs_view(out@) =~= diffs_view(marked) + t.subrange(start as int, k as int));
    }
    assert(t.subrange(start as int, total as int) =~= t.skip(t.len() - tail));
    out
}

/// The summary below a drawn table of `total` records shown under `max_rows`.
pub fn summary_footer(total: usize, max_rows: usize) -> (r: String)
    ensures
        r@ == summary_text(total as nat, max_rows as nat),
{
    if total > max_rows {
        let mut r = String::from_str("\n\n📊 Summary: ");
        r.append(decimal_string(total).as_str());
        r.append(" total differences found");
        r.append("\n   Showing ");
        r.append(decimal_string(max_rows).as_str());
        r.append(" rows (use --max-rows to adjust or --no-truncate to show all)");
        r
    } else {
        let mut r = String::from_str("\n\n📊 Total differences: ");
        r.append(decimal_string(total).as_str());
        r
    }
}

/// The cells of `diffs` under the table header.
pub fn diff_cells(diffs: &Vec<DiffRow>) -> (r: Vec<Vec<String>>)
    ensures
        grid_view(r@) == diff_grid(diffs_view(diffs@)),
{
    let mut header: Vec<String> = Vec::new();
    header.push(String::from_str("key"));
    header.push(String::from_str("column"));
    header.push(String::from_str("file1"));
    header.push(String::from_str("file2"));
    assert(strs(header@) =~= table_header());
    let mut r: Vec<Vec<String>> = Vec::new();
    r.push(header);
    assert(grid_view(r@) =~= seq![table_header()]);
    let ghost g = diff_grid(diffs_view(diffs@));
    let mut i: usize = 0;
    while i < diffs.len()
        invariant
            i <= diffs.len(),
            g == diff_grid(diffs_view(diffs@)),
            grid_view(r@) == g.take(i + 1),
        decreases diffs.len() - i,
    {
        let d = &diffs[i];
        let mut cells: Vec<String> = Vec::new();
        cells.push(d.key.clone());
        cells.push(d.column.clone());
        cells.push(d.file1.clone());
        cells.push(d.file2.clone());
        assert(strs(cells@) =~= record_cells(d@));
        let ghost old_r = r@;
        r.push(cells);
        assert(grid_view(r@) =~= grid_view(old_r).push(record_cells(d@)));
        i = i + 1;
        assert(grid_view(r@) =~= g.take(i + 1));
    }
    assert(g.take(diffs.len() + 1) =~= g);
    r
}

/// The report on `diffs`: the whole table when `no_truncate`; a fixed line
/// when there is nothing; else the windowed table and its summary.
pub fn create_summary_table(
    diffs: Vec<DiffRow>,
    max_rows: usize,
    max_cell_width: usize,
    no_truncate: bool,
) -> (r: String)
    ensures
        r@ == report_text(diffs_view(diffs@), max_rows as nat, max_cell_width as nat, no_truncate),
{
    if no_truncate {
        return render_grid(diff_cells(&diffs));
    }
    if diffs.len() == 0 {
        return String::from_str("✅ No differences found.");
    }
    let shown = display_rows(&diffs, max_rows, max_cell_width);
    let mut r = render_grid(diff_cells(&shown));
    let footer = summary_footer(diffs.len(), max_rows);
    r.append(footer.as_str());
    r
}

} // verus!
