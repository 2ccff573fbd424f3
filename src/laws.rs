//! Properties of the reconciliation that relate several calls or hold of
//! every input, proved over the specifications of the other modules.

use vstd::prelude::*;
use crate::text::{truncated, ellipsis};
use crate::index::{EntryView, entry_pos, entry_keys, entries_map, index_entries, key_of};
use crate::columns::{dedup, column_union, class_of, ColumnClass};
use crate::engine::{
    DiffView, cell_diffs, left_records, right_records, diff_records, missing_in_left,
    missing_in_right,
};
use crate::report::{display_records, head_rows, tail_rows, elision_marker};

verus! {

/// Truncating a truncated cell again at the same width changes nothing; in
/// particular a cell no longer than the width is left as it is.
pub proof fn truncation_is_idempotent(s: Seq<char>, width: nat)
    ensures
        truncated(truncated(s, width), width) == truncated(s, width),
        s.len() <= width ==> truncated(s, width) == s,
{
    if s.len() > width {
        let t = truncated(s, width);
        if width >= 3 {
            assert(t.len() == width);
        } else {
            assert(t.take(0) + ellipsis() =~= t);
        }
    }
}

/// When more records than `max_rows` (at least one) are displayed, the
/// display holds the head window, one elision marker stating how many records
/// are hidden, and the tail window, the two windows together holding
/// `max_rows - 1` records.
pub proof fn window_keeps_count(ds: Seq<DiffView>, max_rows: nat, width: nat)
    requires
        1 <= max_rows < ds.len(),
    ensures
        display_records(ds, max_rows, width).len() == head_rows(max_rows) + 1 + tail_rows(max_rows),
        head_rows(max_rows) + tail_rows(max_rows) == max_rows - 1,
        display_records(ds, max_rows, width)[head_rows(max_rows) as int] == elision_marker(
            (ds.len() - max_rows) as nat,
        ),
{
}

/// Where `entry_pos` stops: the first entry at or after `i` with key `k`.
pub proof fn lemma_entry_pos(e: Seq<EntryView>, k: Seq<char>, i: int)
    requires
        0 <= i,
    ensures
        match entry_pos(e, k, i) {
            Some(p) => i <= p < e.len() && e[p].0 == k && forall|q: int| i <= q < p ==> e[q].0 != k,
            None => forall|q: int| i <= q < e.len() ==> e[q].0 != k,
        },
    decreases e.len() - i,
{
    if i < e.len() && e[i].0 != k {
        lemma_entry_pos(e, k, i + 1);
    }
}

/// Among entries with distinct keys, `entry_pos` finds the one entry with
/// key `k`.
pub proof fn lemma_entry_pos_unique(e: Seq<EntryView>, k: Seq<char>, p: int)
    requires
        entry_keys(e).no_duplicates(),
        0 <= p < e.len(),
        e[p].0 == k,
    ensures
        entry_pos(e, k, 0) == Some(p),
{
    lemma_entry_pos(e, k, 0);
    match entry_pos(e, k, 0) {
        Some(q) => {
            if q != p {
                assert(entry_keys(e)[q] == entry_keys(e)[p]);
            }
        },
        None => {},
    }
}

/// The index built from any rows holds each key once.
pub proof fn lemma_index_keys_distinct(rows: Seq<Seq<Seq<char>>>, pos: Seq<int>)
    ensures
        entry_keys(index_entries(rows, pos)).no_duplicates(),
    decreases rows.len(),
{
    if rows.len() > 0 {
        let prev = index_entries(rows.drop_last(), pos);
        lemma_index_keys_distinct(rows.drop_last(), pos);
        let k = key_of(rows.last(), pos);
        lemma_entry_pos(prev, k, 0);
        let now = index_entries(rows, pos);
        match entry_pos(prev, k, 0) {
            Some(j) => {
                assert(entry_keys(now) =~= entry_keys(prev));
            },
            None => {
                assert(entry_keys(now) =~= entry_keys(prev).push(k));
                assert forall|a: int, b: int|
                    0 <= a < b < entry_keys(now).len() implies entry_keys(now)[a]
                    != entry_keys(now)[b] by {
                    if b == prev.len() {
                        assert(entry_keys(now)[a] == prev[a].0);
                    } else {
                        assert(entry_keys(prev)[a] != entry_keys(prev)[b]);
                    }
                }
            },
        }
    }
}

/// Of several rows with the same composite key, the index keeps only the
/// last: it holds each key once, and under the key of row `j`, when no later
/// row shares it, it holds row `j`.
pub proof fn later_duplicate_wins(rows: Seq<Seq<Seq<char>>>, pos: Seq<int>, j: int)
    requires
        0 <= j < rows.len(),
        forall|q: int| j < q < rows.len() ==> key_of(rows[q], pos) != key_of(rows[j], pos),
    ensures
        entry_keys(index_entries(rows, pos)).no_duplicates(),
        entries_map(index_entries(rows, pos)).contains_key(key_of(rows[j], pos)),
        entries_map(index_entries(rows, pos))[key_of(rows[j], pos)] == rows[j],
    decreases rows.len(),
{
    let k = key_of(rows[j], pos);
    let now = index_entries(rows, pos);
    let prev = index_entries(rows.drop_last(), pos);
    lemma_index_keys_distinct(rows, pos);
    lemma_index_keys_distinct(rows.drop_last(), pos);
    let lk = key_of(rows.last(), pos);
    lemma_entry_pos(prev, lk, 0);
    // the entry that holds `k` in `now`, and what it holds
    let p: int = if j == rows.len() - 1 {
        match entry_pos(prev, lk, 0) {
            Some(q) => q,
            None => prev.len() as int,
        }
    } else {
        later_duplicate_wins(rows.drop_last(), pos, j);
        lemma_entry_pos(prev, k, 0);
        let q = entry_pos(prev, k, 0).unwrap();
        assert(rows.drop_last()[j] == rows[j]);
        assert(lk != k);
        q
    };
    assert(0 <= p < now.len());
    assert(now[p] == (k, rows[j]));
    lemma_entry_pos_unique(now, k, p);
    assert(entry_keys(now)[p] == k);
}

/// Every name of `dedup(s)` is a name of `s`.
pub proof fn lemma_dedup_within(s: Seq<Seq<char>>)
    ensures
        forall|x: Seq<char>| dedup(s).contains(x) ==> s.contains(x),
    decreases s.len(),
{
    if s.len() > 0 {
        lemma_dedup_within(s.drop_last());
        let d = dedup(s.drop_last());
        assert forall|x: Seq<char>| dedup(s).contains(x) implies s.contains(x) by {
            if d.contains(x) {
                assert(s.drop_last().contains(x));
                let i = choose|i: int| 0 <= i < s.drop_last().len() && s.drop_last()[i] == x;
                assert(s[i] == x);
            } else {
                let i = choose|i: int| 0 <= i < dedup(s).len() && dedup(s)[i] == x;
                assert(!d.contains(s.last()));
                if i < d.len() {
                    assert(d[i] == x);
                }
                assert(x == s.last());
                assert(s[s.len() - 1] == x);
            }
        }
    }
}

/// Two equal rows differ in none of the columns a header holds.
pub proof fn lemma_same_row_no_cells(
    key: Seq<char>,
    row: Seq<Seq<char>>,
    cols: Seq<Seq<char>>,
    h: Seq<Seq<char>>,
    keys: Seq<Seq<char>>,
    ignored: Seq<Seq<char>>,
)
    requires
        forall|i: int| 0 <= i < cols.len() ==> h.contains(#[trigger] cols[i]),
    ensures
        cell_diffs(key, row, row, cols, h, h, keys, ignored) == Seq::<DiffView>::empty(),
    decreases cols.len(),
{
    if cols.len() > 0 {
        lemma_same_row_no_cells(key, row, cols.drop_last(), h, keys, ignored);
        assert(h.contains(cols[cols.len() - 1]));
    }
}

/// A table reconciled against itself, under the same key columns, yields no
/// record.
pub proof fn self_reconcile_is_empty(
    header: Seq<Seq<char>>,
    rows: Seq<Seq<Seq<char>>>,
    pos: Seq<int>,
    keys: Seq<Seq<char>>,
    ignored: Seq<Seq<char>>,
)
    ensures
        diff_records(
            index_entries(rows, pos),
            index_entries(rows, pos),
            header,
            header,
            keys,
            ignored,
        ) == Seq::<DiffView>::empty(),
{
    let e = index_entries(rows, pos);
    lemma_index_keys_distinct(rows, pos);
    let cols = column_union(header, header);
    lemma_dedup_within(header + header);
    assert forall|i: int| 0 <= i < cols.len() implies header.contains(#[trigger] cols[i]) by {
        assert(cols.contains(cols[i]));
        assert((header + header).contains(cols[i]));
        let q = choose|q: int| 0 <= q < (header + header).len() && (header + header)[q] == cols[i];
        if q < header.len() {
            assert(header[q] == cols[i]);
        } else {
            assert(header[q - header.len()] == cols[i]);
        }
    }
    lemma_self_prefix(e, e.len() as int, header, keys, ignored);
    assert(e.take(e.len() as int) =~= e);
}

/// The records of each prefix of an index reconciled against itself.
proof fn lemma_self_prefix(
    e: Seq<EntryView>,
    n: int,
    header: Seq<Seq<char>>,
    keys: Seq<Seq<char>>,
    ignored: Seq<Seq<char>>,
)
    requires
        0 <= n <= e.len(),
        entry_keys(e).no_duplicates(),
        forall|i: int|
            0 <= i < column_union(header, header).len() ==> header.contains(
                #[trigger] column_union(header, header)[i],
            ),
    ensures
        left_records(e.take(n), e, header, header, keys, ignored) == Seq::<DiffView>::empty(),
        right_records(e.take(n), e) == Seq::<DiffView>::empty(),
    decreases n,
{
    if n > 0 {
        lemma_self_prefix(e, n - 1, header, keys, ignored);
        assert(e.take(n).drop_last() =~= e.take(n - 1));
        let x = e[n - 1];
        assert(e.take(n).last() == x);
        lemma_entry_pos_unique(e, x.0, n - 1);
        lemma_same_row_no_cells(x.0, x.1, column_union(header, header), header, keys, ignored);
    }
}

/// The records that cell comparison yields never name a key column.
proof fn lemma_cells_avoid_keys(
    key: Seq<char>,
    r1: Seq<Seq<char>>,
    r2: Seq<Seq<char>>,
    cols: Seq<Seq<char>>,
    h1: Seq<Seq<char>>,
    h2: Seq<Seq<char>>,
    keys: Seq<Seq<char>>,
    ignored: Seq<Seq<char>>,
)
    ensures
        forall|i: int|
            0 <= i < cell_diffs(key, r1, r2, cols, h1, h2, keys, ignored).len() ==> !keys.contains(
                (#[trigger] cell_diffs(key, r1, r2, cols, h1, h2, keys, ignored)[i]).column,
            ),
        forall|i: int|
            0 <= i < cell_diffs(key, r1, r2, cols, h1, h2, keys, ignored).len() ==> (
            #[trigger] cell_diffs(key, r1, r2, cols, h1, h2, keys, ignored)[i]).key == key,
    decreases cols.len(),
{
    if cols.len() > 0 {
        lemma_cells_avoid_keys(key, r1, r2, cols.drop_last(), h1, h2, keys, ignored);
        let prev = cell_diffs(key, r1, r2, cols.drop_last(), h1, h2, keys, ignored);
        let all = cell_diffs(key, r1, r2, cols, h1, h2, keys, ignored);
        let c = cols.last();
        if keys.contains(c) {
            assert(class_of(c, h1, h2, keys, ignored) == ColumnClass::Key);
        }
        assert forall|i: int| 0 <= i < all.len() implies !keys.contains(
            (#[trigger] all[i]).column,
        ) && all[i].key == key by {
            if i < prev.len() {
                assert(all[i] == prev[i]);
            }
        }
    }
}

/// Every record of the first index's keys names no key column and carries
/// one of its keys.
proof fn lemma_left_avoid_keys(
    e1: Seq<EntryView>,
    e2: Seq<EntryView>,
    h1: Seq<Seq<char>>,
    h2: Seq<Seq<char>>,
    keys: Seq<Seq<char>>,
    ignored: Seq<Seq<char>>,
)
    ensures
        forall|i: int|
            0 <= i < left_records(e1, e2, h1, h2, keys, ignored).len() ==> {
                let d = #[trigger] left_records(e1, e2, h1, h2, keys, ignored)[i];
                (keys.contains(d.column) ==> d.column == missing_in_right())
                    && entry_keys(e1).contains(d.key)
            },
    decreases e1.len(),
{
    if e1.len() > 0 {
        let x = e1.last();
        lemma_left_avoid_keys(e1.drop_last(), e2, h1, h2, keys, ignored);
        let prev = left_records(e1.drop_last(), e2, h1, h2, keys, ignored);
        let all = left_records(e1, e2, h1, h2, keys, ignored);
        assert(entry_keys(e1)[e1.len() - 1] == x.0);
        match entry_pos(e2, x.0, 0) {
            Some(j) => {
                lemma_cells_avoid_keys(x.0, x.1, e2[j].1, column_union(h1, h2), h1, h2, keys, ignored);
            },
            None => {},
        }
        assert forall|i: int| 0 <= i < all.len() implies {
            let d = #[trigger] all[i];
            (keys.contains(d.column) ==> d.column == missing_in_right())
                && entry_keys(e1).contains(d.key)
        } by {
            if i < prev.len() {
                assert(all[i] == prev[i]);
                let q = choose|q: int| 0 <= q < entry_keys(e1.drop_last()).len()
                    && entry_keys(e1.drop_last())[q] == prev[i].key;
                assert(entry_keys(e1)[q] == prev[i].key);
            }
        }
    }
}

/// Every record of the keys only the second index holds names no key
/// column and carries one of its keys.
proof fn lemma_right_avoid_keys(e2: Seq<EntryView>, e1: Seq<EntryView>)
    ensures
        forall|i: int|
            0 <= i < right_records(e2, e1).len() ==> {
                let d = #[trigger] right_records(e2, e1)[i];
                d.column == missing_in_left() && only_right_keys(e2, e1).contains(d.key)
            },
    decreases e2.len(),
{
    if e2.len() > 0 {
        lemma_right_avoid_keys(e2.drop_last(), e1);
        let prev = right_records(e2.drop_last(), e1);
        let all = right_records(e2, e1);
        let pk = only_right_keys(e2.drop_last(), e1);
        let ak = only_right_keys(e2, e1);
        assert forall|i: int| 0 <= i < all.len() implies {
            let d = #[trigger] all[i];
            d.column == missing_in_left() && ak.contains(d.key)
        } by {
            if i < prev.len() {
                assert(all[i] == prev[i]);
                let q = choose|q: int| 0 <= q < pk.len() && pk[q] == prev[i].key;
                assert(ak[q] == prev[i].key);
            } else {
                assert(ak[pk.len() as int] == e2.last().0);
            }
        }
    }
}

/// The keys only the second index holds, in its order.
pub open spec fn only_right_keys(e2: Seq<EntryView>, e1: Seq<EntryView>) -> Seq<Seq<char>>
    decreases e2.len(),
{
    if e2.len() == 0 {
        Seq::empty()
    } else {
        only_right_keys(e2.drop_last(), e1) + if entry_pos(e1, e2.last().0, 0) is None {
            seq![e2.last().0]
        } else {
            Seq::empty()
        }
    }
}

/// The keys a reconciliation walks: those of the first index in its order,
/// then those only the second index holds, in its order.
pub open spec fn visited_keys(e1: Seq<EntryView>, e2: Seq<EntryView>) -> Seq<Seq<char>> {
    entry_keys(e1) + only_right_keys(e2, e1)
}

/// The keys only the second index holds are the keys of the second index
/// that the first lacks, each once.
proof fn lemma_only_right_keys(e2: Seq<EntryView>, e1: Seq<EntryView>)
    requires
        entry_keys(e2).no_duplicates(),
    ensures
        only_right_keys(e2, e1).no_duplicates(),
        forall|k: Seq<char>|
            #[trigger] only_right_keys(e2, e1).contains(k) <==> entry_keys(e2).contains(k)
                && !entry_keys(e1).contains(k),
    decreases e2.len(),
{
    if e2.len() > 0 {
        let p2 = e2.drop_last();
        assert(entry_keys(p2) =~= entry_keys(e2).drop_last());
        lemma_only_right_keys(p2, e1);
        let pk = only_right_keys(p2, e1);
        let ak = only_right_keys(e2, e1);
        let last = e2.last().0;
        assert(entry_keys(e2) =~= entry_keys(p2).push(last));
        lemma_entry_pos(e1, last, 0);
        assert(!entry_keys(p2).contains(last)) by {
            if entry_keys(p2).contains(last) {
                let q = choose|q: int| 0 <= q < entry_keys(p2).len() && entry_keys(p2)[q] == last;
                assert(entry_keys(e2)[q] == entry_keys(e2)[e2.len() - 1]);
            }
        }
        assert(entry_pos(e1, last, 0) is None <==> !entry_keys(e1).contains(last)) by {
            if entry_keys(e1).contains(last) {
                let q = choose|q: int| 0 <= q < entry_keys(e1).len() && entry_keys(e1)[q] == last;
                assert(e1[q].0 == last);
            }
            match entry_pos(e1, last, 0) {
                Some(p) => {
                    assert(entry_keys(e1)[p] == last);
                },
                None => {},
            }
        }
        assert forall|k: Seq<char>| #[trigger] ak.contains(k) <==> entry_keys(e2).contains(k)
            && !entry_keys(e1).contains(k) by {
            if ak.contains(k) {
                let q = choose|q: int| 0 <= q < ak.len() && ak[q] == k;
                if q < pk.len() {
                    assert(pk[q] == k);
                    assert(pk.contains(k));
                    let r = choose|r: int| 0 <= r < entry_keys(p2).len() && entry_keys(p2)[r] == k;
                    assert(entry_keys(e2)[r] == k);
                } else {
                    assert(entry_pos(e1, last, 0) is None);
                    assert(ak =~= pk + seq![last]);
                    assert(k == last);
                    assert(entry_keys(e2)[e2.len() - 1] == k);
                }
            }
            if entry_keys(e2).contains(k) && !entry_keys(e1).contains(k) {
                let q = choose|q: int| 0 <= q < entry_keys(e2).len() && entry_keys(e2)[q] == k;
                if q < p2.len() {
                    assert(entry_keys(p2)[q] == k);
                    assert(pk.contains(k));
                    let r = choose|r: int| 0 <= r < pk.len() && pk[r] == k;
                    assert(ak[r] == k);
                } else {
                    assert(k == last);
                    assert(ak =~= pk + seq![last]);
                    assert(ak[pk.len() as int] == k);
                }
            }
        }
        assert forall|a: int, b: int| 0 <= a < b < ak.len() implies ak[a] != ak[b] by {
            if b >= pk.len() {
                assert(ak[a] == pk[a]);
                assert(pk.contains(pk[a]));
            } else {
                assert(ak[a] == pk[a] && ak[b] == pk[b]);
            }
        }
    }
}

/// No record names a key column, so long as no key column is named like
/// one of the two markers of a one-sided row.
pub proof fn key_columns_never_reported(
    e1: Seq<EntryView>,
    e2: Seq<EntryView>,
    h1: Seq<Seq<char>>,
    h2: Seq<Seq<char>>,
    keys: Seq<Seq<char>>,
    ignored: Seq<Seq<char>>,
)
    requires
        !keys.contains(missing_in_left()),
        !keys.contains(missing_in_right()),
    ensures
        forall|i: int|
            0 <= i < diff_records(e1, e2, h1, h2, keys, ignored).len() ==> !keys.contains(
                (#[trigger] diff_records(e1, e2, h1, h2, keys, ignored)[i]).column,
            ),
{
    lemma_left_avoid_keys(e1, e2, h1, h2, keys, ignored);
    lemma_right_avoid_keys(e2, e1);
    let l = left_records(e1, e2, h1, h2, keys, ignored);
    let all = diff_records(e1, e2, h1, h2, keys, ignored);
    assert forall|i: int| 0 <= i < all.len() implies !keys.contains(#[trigger] all[i].column) by {
        if i < l.len() {
            assert(all[i] == l[i]);
        } else {
            assert(all[i] == right_records(e2, e1)[i - l.len()]);
        }
    }
}

/// The reconciliation of two indices, each holding its keys once, walks
/// every key of either exactly once: the keys it walks are distinct and are
/// those of one index or the other; each key is either in both (its cells
/// are compared), only in the first, or only in the second; and every record
/// carries a key it walks.
pub proof fn every_key_walked_once(
    e1: Seq<EntryView>,
    e2: Seq<EntryView>,
    h1: Seq<Seq<char>>,
    h2: Seq<Seq<char>>,
    keys: Seq<Seq<char>>,
    ignored: Seq<Seq<char>>,
)
    requires
        entry_keys(e1).no_duplicates(),
        entry_keys(e2).no_duplicates(),
    ensures
        visited_keys(e1, e2).no_duplicates(),
        forall|k: Seq<char>|
            #[trigger] visited_keys(e1, e2).contains(k) <==> entry_keys(e1).contains(k)
                || entry_keys(e2).contains(k),
        forall|i: int|
            0 <= i < diff_records(e1, e2, h1, h2, keys, ignored).len() ==> visited_keys(
                e1,
                e2,
            ).contains((#[trigger] diff_records(e1, e2, h1, h2, keys, ignored)[i]).key),
{
    lemma_only_right_keys(e2, e1);
    lemma_left_avoid_keys(e1, e2, h1, h2, keys, ignored);
    lemma_right_avoid_keys(e2, e1);
    let v = visited_keys(e1, e2);
    let k1 = entry_keys(e1);
    let rk = only_right_keys(e2, e1);
    assert forall|a: int, b: int| 0 <= a < b < v.len() implies v[a] != v[b] by {
        if b < k1.len() {
            assert(v[a] == k1[a] && v[b] == k1[b]);
        } else if a >= k1.len() {
            assert(v[a] == rk[a - k1.len()] && v[b] == rk[b - k1.len()]);
        } else {
            assert(v[a] == k1[a]);
            assert(v[b] == rk[b - k1.len()]);
            assert(rk.contains(v[b]));
            assert(k1.contains(v[a]));
        }
    }
    assert forall|k: Seq<char>| #[trigger] v.contains(k) <==> k1.contains(k) || entry_keys(
        e2,
    ).contains(k) by {
        if v.contains(k) {
            let q = choose|q: int| 0 <= q < v.len() && v[q] == k;
            if q < k1.len() {
                assert(k1[q] == k);
            } else {
                assert(rk[q - k1.len()] == k);
                assert(rk.contains(k));
            }
        }
        if k1.contains(k) {
            let q = choose|q: int| 0 <= q < k1.len() && k1[q] == k;
            assert(v[q] == k);
        } else if entry_keys(e2).contains(k) {
            assert(rk.contains(k));
            let q = choose|q: int| 0 <= q < rk.len() && rk[q] == k;
            assert(v[q + k1.len()] == k);
        }
    }
    let l = left_records(e1, e2, h1, h2, keys, ignored);
    let all = diff_records(e1, e2, h1, h2, keys, ignored);
    assert forall|i: int| 0 <= i < all.len() implies v.contains(#[trigger] all[i].key) by {
        if i < l.len() {
            assert(all[i] == l[i]);
            assert(k1.contains(all[i].key));
            let q = choose|q: int| 0 <= q < k1.len() && k1[q] == all[i].key;
            assert(v[q] == all[i].key);
        } else {
            assert(all[i] == right_records(e2, e1)[i - l.len()]);
            assert(rk.contains(all[i].key));
            let q = choose|q: int| 0 <= q < rk.len() && rk[q] == all[i].key;
            assert(v[q + k1.len()] == all[i].key);
        }
    }
}

} // verus!
