//! The diff engine: walks the union of both indices' keys and emits one
//! record per differing cell and one per row that only one table holds.

use vstd::prelude::*;
use crate::text::{strs, preview_of, row_preview};
use crate::index::{EntryView, RowIndex, entry_pos, find_entry};
use crate::columns::{ColumnClass, class_of, cell_diff, column_union, classify_columns, resolve_cell};

verus! {

/// One reported divergence between the two tables.
#[derive(Debug, Clone, PartialEq, Eq)]
pub struct DiffRow {
    /// The composite key of the row.
    pub key: String,
    /// The column name, or a marker for a row that only one table holds.
    pub column: String,
    /// The value shown for the first table.
    pub file1: String,
    /// The value shown for the second table.
    pub file2: String,
}

/// The view of a [`DiffRow`].
pub struct DiffView {
    pub key: Seq<char>,
    pub column: Seq<char>,
    pub file1: Seq<char>,
    pub file2: Seq<char>,
}

impl View for DiffRow {
    type V = DiffView;

    open spec fn view(&self) -> DiffView {
        DiffView { key: self.key@, column: self.column@, file1: self.file1@, file2: self.file2@ }
    }
}

/// The views of a sequence of records.
pub open spec fn diffs_view(v: Seq<DiffRow>) -> Seq<DiffView> {
    v.map_values(|d: DiffRow| d@)
}

/// The column marker of a row that only the first table holds.
pub open spec fn missing_in_right() -> Seq<char> {
    "[missing in file2]"@
}

/// The column marker of a row that only the second table holds.
pub open spec fn missing_in_left() -> Seq<char> {
    "[missing in file1]"@
}

/// The records for the differing cells among `cols` of two rows with key `key`.
pub open spec fn cell_diffs(
    key: Seq<char>,
    r1: Seq<Seq<char>>,
    r2: Seq<Seq<char>>,
    cols: Seq<Seq<char>>,
    h1: Seq<Seq<char>>,
    h2: Seq<Seq<char>>,
    keys: Seq<Seq<char>>,
    ignored: Seq<Seq<char>>,
) -> Seq<DiffView>
    decreases cols.len(),
{
    if cols.len() == 0 {
        Seq::empty()
    } else {
        let prev = cell_diffs(key, r1, r2, cols.drop_last(), h1, h2, keys, ignored);
        let c = cols.last();
        match cell_diff(c, class_of(c, h1, h2, keys, ignored), r1, r2, h1, h2) {
            Some(v) => prev.push(DiffView { key, column: c, file1: v.0, file2: v.1 }),
            None => prev,
        }
    }
}

/// The records for one entry of the first index.
pub open spec fn left_key_records(
    e: EntryView,
    e2: Seq<EntryView>,
    h1: Seq<Seq<char>>,
    h2: Seq<Seq<char>>,
    keys: Seq<Seq<char>>,
    ignored: Seq<Seq<char>>,
) -> Seq<DiffView> {
    match entry_pos(e2, e.0, 0) {
        Some(j) => cell_diffs(e.0, e.1, e2[j].1, column_union(h1, h2), h1, h2, keys, ignored),
        None => seq![
            DiffView {
                key: e.0,
                column: missing_in_right(),
                file1: preview_of(e.1),
                file2: Seq::empty(),
            },
        ],
    }
}

/// The records for the keys of the first index, in its order.
pub open spec fn left_records(
    e1: Seq<EntryView>,
    e2: Seq<EntryView>,
    h1: Seq<Seq<char>>,
    h2: Seq<Seq<char>>,
    keys: Seq<Seq<char>>,
    ignored: Seq<Seq<char>>,
) -> Seq<DiffView>
    decreases e1.len(),
{
    if e1.len() == 0 {
        Seq::empty()
    } else {
        left_records(e1.drop_last(), e2, h1, h2, keys, ignored) + left_key_records(
            e1.last(),
            e2,
            h1,
            h2,
            keys,
            ignored,
        )
    }
}

/// The record for one entry of the second index, if the first lacks its key.
pub open spec fn right_key_records(e: EntryView, e1: Seq<EntryView>) -> Seq<DiffView> {
    if entry_pos(e1, e.0, 0) is None {
        seq![
            DiffView {
                key: e.0,
                column: missing_in_left(),
                file1: Seq::empty(),
                file2: preview_of(e.1),
            },
        ]
    } else {
        Seq::empty()
    }
}

/// The records for the keys only the second index holds, in its order.
pub open spec fn right_records(e2: Seq<EntryView>, e1: Seq<EntryView>) -> Seq<DiffView>
    decreases e2.len(),
{
    if e2.len() == 0 {
        Seq::empty()
    } else {
        right_records(e2.drop_last(), e1) + right_key_records(e2.last(), e1)
    }
}

/// All records of a reconciliation: the first index's keys in its order,
/// then the keys only the second index holds, in its order.
pub open spec fn diff_records(
    e1: Seq<EntryView>,
    e2: Seq<EntryView>,
    h1: Seq<Seq<char>>,
    h2: Seq<Seq<char>>,
    keys: Seq<Seq<char>>,
    ignored: Seq<Seq<char>>,
) -> Seq<DiffView> {
    left_records(e1, e2, h1, h2, keys, ignored) + right_records(e2, e1)
}

/// Whether `plan` gives each column of the union of `h1` and `h2` its role.
pub open spec fn is_column_plan(
    plan: Seq<(String, ColumnClass)>,
    h1: Seq<Seq<char>>,
    h2: Seq<Seq<char>>,
    keys: Seq<Seq<char>>,
    ignored: Seq<Seq<char>>,
) -> bool {
    &&& plan.len() == column_union(h1, h2).len()
    &&& forall|i: int|
        0 <= i < plan.len() ==> {
            let name = column_union(h1, h2)[i];
            &&& (#[trigger] plan[i]).0@ == name
            &&& plan[i].1 == class_of(name, h1, h2, keys, ignored)
        }
}

/// The records for the differing cells of two rows with key `key`.
fn key_cell_diffs(
    key: &String,
    r1: &Vec<String>,
    r2: &Vec<String>,
    h1: &Vec<String>,
    h2: &Vec<String>,
    plan: &Vec<(String, ColumnClass)>,
    Ghost(keys): Ghost<Seq<Seq<char>>>,
    Ghost(ignored): Ghost<Seq<Seq<char>>>,
) -> (r: Vec<DiffRow>)
    requires
        is_column_plan(plan@, strs(h1@), strs(h2@), keys, ignored),
    ensures
        diffs_view(r@) == cell_diffs(
            key@,
            strs(r1@),
            strs(r2@),
            column_union(strs(h1@), strs(h2@)),
            strs(h1@),
            strs(h2@),
            keys,
            ignored,
        ),
{
    let ghost cols = column_union(strs(h1@), strs(h2@));
    let mut out: Vec<DiffRow> = Vec::new();
    let mut c: usize = 0;
    while c < plan.len()
        invariant
            c <= plan.len(),
            cols == column_union(strs(h1@), strs(h2@)),
            is_column_plan(plan@, strs(h1@), strs(h2@), keys, ignored),
            diffs_view(out@) == cell_diffs(
                key@,
                strs(r1@),
                strs(r2@),
                cols.take(c as int),
                strs(h1@),
                strs(h2@),
                keys,
                ignored,
            ),
        decreases plan.len() - c,
    {
        let ghost before = cols.take(c as int);
        let name = &plan[c].0;
        let class = plan[c].1;
        let ghost old_out = out@;
        match resolve_cell(name, class, r1, r2, h1, h2) {
            Some((a, b)) => {
                out.push(DiffRow { key: key.clone(), column: name.clone(), file1: a, file2: b });
                assert(diffs_view(out@) =~= diffs_view(old_out).push(out@.last()@));
            },
            None => {},
        }
        c = c + 1;
        assert(cols.take(c as int).drop_last() =~= before);
    }
    assert(cols.take(plan.len() as int) =~= cols);
    out
}

/// The record of a row that only one table holds.
fn one_sided(key: &String, row: &Vec<String>, left: bool) -> (r: DiffRow)
    ensures
        left ==> r@ == (DiffView {
            key: key@,
            column: missing_in_right(),
            file1: preview_of(strs(row@)),
            file2: Seq::empty(),
        }),
        !left ==> r@ == (DiffView {
            key: key@,
            column: missing_in_left(),
            file1: Seq::empty(),
            file2: preview_of(strs(row@)),
        }),
{
    if left {
        DiffRow {
            key: key.clone(),
            column: String::from_str("[missing in file2]"),
            file1: row_preview(row),
            file2: String::new(),
        }
    } else {
        DiffRow {
            key: key.clone(),
            column: String::from_str("[missing in file1]"),
            file1: String::new(),
            file2: row_preview(row),
        }
    }
}

/// Reconciles two indices: for each key of either, the records of the
/// cells that differ when both hold it, or one record for the table that
/// lacks it. Key and ignored columns are never compared.
pub fn reconcile(
    idx1: &RowIndex,
    idx2: &RowIndex,
    key_columns: &Vec<String>,
    ignore_columns: &Vec<String>,
) -> (r: Vec<DiffRow>)
    ensures
        diffs_view(r@) == diff_records(
            idx1.entries_view(),
            idx2.entries_view(),
            idx1.header_view(),
            idx2.header_view(),
            strs(key_columns@),
            strs(ignore_columns@),
        ),
{
    let ghost e1 = idx1.entries_view();
    let ghost e2 = idx2.entries_view();
    let ghost h1 = idx1.header_view();
    let ghost h2 = idx2.header_view();
    let ghost ks = strs(key_columns@);
    let ghost ig = strs(ignore_columns@);
    let plan = classify_columns(&idx1.headers, &idx2.headers, key_columns, ignore_columns);
    let mut out: Vec<DiffRow> = Vec::new();
    let mut i: usize = 0;
    while i < idx1.entries.len()
        invariant
            i <= idx1.entries.len(),
            e1 == idx1.entries_view(),
            e2 == idx2.entries_view(),
            h1 == idx1.header_view(),
            h2 == idx2.header_view(),
            ks == strs(key_columns@),
            ig == strs(ignore_columns@),
            is_column_plan(plan@, h1, h2, ks, ig),
            diffs_view(out@) == left_records(e1.take(i as int), e2, h1, h2, ks, ig),
        decreases idx1.entries.len() - i,
    {
        let ghost old_out = out@;
        let key = &idx1.entries[i].0;
        let r1 = &idx1.entries[i].1;
        assert(e1[i as int] == (key@, strs(r1@)));
        match find_entry(&idx2.entries, key) {
            Some(j) => {
                let r2 = &idx2.entries[j].1;
                assert(e2[j as int].1 == strs(r2@));
                let mut more = key_cell_diffs(
                    key,
                    r1,
                    r2,
                    &idx1.headers,
                    &idx2.headers,
                    &plan,
                    Ghost(ks),
                    Ghost(ig),
                );
                let ghost added = more@;
                out.append(&mut more);
                assert(diffs_view(out@) =~= diffs_view(old_out) + diffs_view(added));
            },
            None => {
                out.push(one_sided(key, r1, true));
                assert(diffs_view(out@) =~= diffs_view(old_out).push(out@.last()@));
            },
        }
        i = i + 1;
        assert(e1.take(i as int).drop_last() =~= e1.take(i - 1));
        assert(diffs_view(out@) =~= left_records(e1.take(i as int), e2, h1, h2, ks, ig));
    }
    assert(e1.take(i as int) =~= e1);
    let ghost left = out@;
    let mut k: usize = 0;
    while k < idx2.entries.len()
        invariant
            k <= idx2.entries.len(),
            e1 == idx1.entries_view(),
            e2 == idx2.entries_view(),
            diffs_view(left) == left_records(e1, e2, h1, h2, ks, ig),
            diffs_view(out@) == diffs_view(left) + right_records(e2.take(k as int), e1),
        decreases idx2.entries.len() - k,
    {
        let ghost old_out = out@;
        let key = &idx2.entries[k].0;
        let r2 = &idx2.entries[k].1;
        assert(e2[k as int] == (key@, strs(r2@)));
        if find_entry(&idx1.entries, key).is_none() {
            out.push(one_sided(key, r2, false));
            assert(diffs_view(out@) =~= diffs_view(old_out).push(out@.last()@));
        }
        k = k + 1;
        assert(e2.take(k as int).drop_last() =~= e2.take(k - 1));
        assert(diffs_view(out@) =~= diffs_view(left) + right_records(e2.take(k as int), e1));
    }
    assert(e2.take(k as int) =~= e2);
    out
}

} // verus!
