//! The row indexer: resolves key columns against a header and maps each
//! composite key to the last row that produced it.

use vstd::prelude::*;
use crate::text::{join, strs, clone_strings, join_strings};

verus! {

/// The first position at or after `i` where `header` holds `name`.
pub open spec fn pos_from(header: Seq<Seq<char>>, name: Seq<char>, i: int) -> Option<int>
    decreases header.len() - i,
{
    if i < 0 || i >= header.len() {
        None
    } else if header[i] == name {
        Some(i)
    } else {
        pos_from(header, name, i + 1)
    }
}

/// The first position of `name` in `header`, if any.
pub open spec fn column_position(header: Seq<Seq<char>>, name: Seq<char>) -> Option<int> {
    pos_from(header, name, 0)
}

/// The value of a row at position `p`; a short row reads as empty there.
pub open spec fn field_at(row: Seq<Seq<char>>, p: int) -> Seq<char> {
    if 0 <= p < row.len() {
        row[p]
    } else {
        Seq::empty()
    }
}

/// The separator between the parts of a composite key.
pub open spec fn key_separator() -> Seq<char> {
    seq!['|']
}

/// The composite key of `row`: its values at positions `pos`, joined by `|`.
pub open spec fn key_of(row: Seq<Seq<char>>, pos: Seq<int>) -> Seq<char> {
    join(pos.map_values(|p: int| field_at(row, p)), key_separator())
}

/// The positions of the key columns `keys` in `header`; only meaningful when
/// every key column is present.
pub open spec fn key_positions(header: Seq<Seq<char>>, keys: Seq<Seq<char>>) -> Seq<int> {
    keys.map_values(|k: Seq<char>| column_position(header, k).unwrap_or(0))
}

/// The first key column that `header` lacks, if any.
pub open spec fn first_missing_from(header: Seq<Seq<char>>, keys: Seq<Seq<char>>, i: int) -> Option<Seq<char>>
    decreases keys.len() - i,
{
    if i < 0 || i >= keys.len() {
        None
    } else if column_position(header, keys[i]) is None {
        Some(keys[i])
    } else {
        first_missing_from(header, keys, i + 1)
    }
}

pub open spec fn first_missing(header: Seq<Seq<char>>, keys: Seq<Seq<char>>) -> Option<Seq<char>> {
    first_missing_from(header, keys, 0)
}

/// One entry of a row index: a composite key and the row stored under it.
pub type EntryView = (Seq<char>, Seq<Seq<char>>);

/// The first position at or after `i` of an entry with key `k`.
pub open spec fn entry_pos(e: Seq<EntryView>, k: Seq<char>, i: int) -> Option<int>
    decreases e.len() - i,
{
    if i < 0 || i >= e.len() {
        None
    } else if e[i].0 == k {
        Some(i)
    } else {
        entry_pos(e, k, i + 1)
    }
}

/// The entries of the index built from `rows`: one per distinct composite
/// key, in order of first appearance, each holding the last row with that key.
pub open spec fn index_entries(rows: Seq<Seq<Seq<char>>>, pos: Seq<int>) -> Seq<EntryView>
    decreases rows.len(),
{
    if rows.len() == 0 {
        Seq::empty()
    } else {
        let prev = index_entries(rows.drop_last(), pos);
        let k = key_of(rows.last(), pos);
        match entry_pos(prev, k, 0) {
            Some(j) => prev.update(j, (k, rows.last())),
            None => prev.push((k, rows.last())),
        }
    }
}

/// The index holds at most one entry per row.
pub proof fn lemma_index_size(rows: Seq<Seq<Seq<char>>>, pos: Seq<int>)
    ensures
        index_entries(rows, pos).len() <= rows.len(),
    decreases rows.len(),
{
    if rows.len() > 0 {
        lemma_index_size(rows.drop_last(), pos);
        let prev = index_entries(rows.drop_last(), pos);
        crate::laws::lemma_entry_pos(prev, key_of(rows.last(), pos), 0);
    }
}

/// The keys of a sequence of entries.
pub open spec fn entry_keys(e: Seq<EntryView>) -> Seq<Seq<char>> {
    e.map_values(|x: EntryView| x.0)
}

/// The mapping from key to row that a sequence of entries describes.
pub open spec fn entries_map(e: Seq<EntryView>) -> Map<Seq<char>, Seq<Seq<char>>> {
    Map::new(
        |k: Seq<char>| entry_keys(e).contains(k),
        |k: Seq<char>| e[entry_pos(e, k, 0).unwrap()].1,
    )
}

/// The view of a table's rows.
pub open spec fn rows_view(rows: Seq<Vec<String>>) -> Seq<Seq<Seq<char>>> {
    rows.map_values(|r: Vec<String>| strs(r@))
}

/// Why a table cannot be indexed.
#[derive(Debug, Clone, PartialEq, Eq)]
pub enum IndexError {
    /// A requested key column is absent from the table's header.
    UnknownKeyColumn(String),
}

/// A table indexed by composite key.
pub struct RowIndex {
    pub headers: Vec<String>,
    pub entries: Vec<(String, Vec<String>)>,
    /// Rows read to build the index, including those a later row replaced.
    pub rows_read: usize,
}

impl RowIndex {
    pub open spec fn header_view(&self) -> Seq<Seq<char>> {
        strs(self.headers@)
    }

    pub open spec fn entries_view(&self) -> Seq<EntryView> {
        self.entries@.map_values(|e: (String, Vec<String>)| (e.0@, strs(e.1@)))
    }

    pub open spec fn map_view(&self) -> Map<Seq<char>, Seq<Seq<char>>> {
        entries_map(self.entries_view())
    }

    /// Whether the index holds at most one entry per row read and each key once.
    pub open spec fn wf(&self) -> bool {
        &&& self.entries_view().len() <= self.rows_read
        &&& entry_keys(self.entries_view()).no_duplicates()
    }

    /// Rows that a later row with the same composite key replaced.
    pub fn collisions(&self) -> (r: usize)
        ensures
            self.wf() ==> r == self.rows_read - self.entries_view().len(),
    {
        if self.entries.len() <= self.rows_read {
            self.rows_read - self.entries.len()
        } else {
            0
        }
    }

    /// Number of distinct keys.
    pub fn len(&self) -> (r: usize)
        ensures
            r == self.entries_view().len(),
    {
        self.entries.len()
    }

    /// The row stored under `key`, if any.
    pub fn get(&self, key: &String) -> (r: Option<&Vec<String>>)
        ensures
            r matches Some(row) ==> entry_pos(self.entries_view(), key@, 0) is Some
                && strs(row@) == self.entries_view()[entry_pos(self.entries_view(), key@, 0).unwrap()].1,
            r is None <==> entry_pos(self.entries_view(), key@, 0) is None,
    {
        match find_entry(&self.entries, key) {
            Some(j) => Some(&self.entries[j].1),
            None => None,
        }
    }
}

/// The first position of `name` in `header`.
pub fn find_column(header: &Vec<String>, name: &String) -> (r: Option<usize>)
    ensures
        r matches Some(i) ==> i < header.len() && column_position(strs(header@), name@) == Some(i as int),
        r is None ==> column_position(strs(header@), name@) is None,
{
    let ghost h = strs(header@);
    let mut i: usize = 0;
    while i < header.len()
        invariant
            i <= header.len(),
            h == strs(header@),
            pos_from(h, name@, 0) == pos_from(h, name@, i as int),
        decreases header.len() - i,
    {
        if header[i] == *name {
            return Some(i);
        }
        i = i + 1;
    }
    None
}

/// The first position at which `entries` holds key `k`.
pub fn find_entry(entries: &Vec<(String, Vec<String>)>, k: &String) -> (r: Option<usize>)
    ensures
        ({
            let e = entries@.map_values(|e: (String, Vec<String>)| (e.0@, strs(e.1@)));
            &&& r matches Some(i) ==> i < entries.len() && entry_pos(e, k@, 0) == Some(i as int)
            &&& r is None ==> entry_pos(e, k@, 0) is None
        }),
{
    let ghost e = entries@.map_values(|e: (String, Vec<String>)| (e.0@, strs(e.1@)));
    let mut i: usize = 0;
    while i < entries.len()
        invariant
            i <= entries.len(),
            e == entries@.map_values(|e: (String, Vec<String>)| (e.0@, strs(e.1@))),
            entry_pos(e, k@, 0) == entry_pos(e, k@, i as int),
        decreases entries.len() - i,
    {
        if entries[i].0 == *k {
            return Some(i);
        }
        i = i + 1;
    }
    None
}

/// The view of a sequence of positions.
pub open spec fn positions_view(pos: Seq<usize>) -> Seq<int> {
    pos.map_values(|p: usize| p as int)
}

/// The composite key of `row` at positions `pos`.
pub fn composite_key(row: &Vec<String>, pos: &Vec<usize>) -> (r: String)
    ensures
        r@ == key_of(strs(row@), positions_view(pos@)),
{
    let ghost fields = positions_view(pos@).map_values(|p: int| field_at(strs(row@), p));
    let mut parts: Vec<String> = Vec::new();
    let mut i: usize = 0;
    while i < pos.len()
        invariant
            i <= pos.len(),
            fields == positions_view(pos@).map_values(|p: int| field_at(strs(row@), p)),
            strs(parts@) == fields.take(i as int),
        decreases pos.len() - i,
    {
        let p = pos[i];
        let ghost old_parts = parts@;
        let part = if p < row.len() {
            row[p].clone()
        } else {
            String::new()
        };
        assert(positions_view(pos@)[i as int] == p as int);
        assert(part@ == field_at(strs(row@), p as int));
        parts.push(part);
        assert(parts@ == old_parts.push(part));
        assert(strs(parts@) =~= strs(old_parts).push(part@));
        i = i + 1;
        assert(strs(parts@) =~= fields.take(i as int));
    }
    assert(fields.take(pos.len() as int) =~= fields);
    proof {
        reveal_strlit("|");
    }
    let r = join_strings(&parts, "|");
    assert("|"@ =~= key_separator());
    r
}

/// Resolves each key column to its first position in `headers`.
pub fn resolve_key_columns(headers: &Vec<String>, key_columns: &Vec<String>) -> (r: Result<Vec<usize>, IndexError>)
    ensures
        match r {
            Ok(pos) => first_missing(strs(headers@), strs(key_columns@)) is None
                && positions_view(pos@) == key_positions(strs(headers@), strs(key_columns@))
                && forall|j: int| 0 <= j < pos@.len() ==> pos@[j] < headers@.len(),
            Err(IndexError::UnknownKeyColumn(name)) =>
                first_missing(strs(headers@), strs(key_columns@)) == Some(name@),
        },
{
    let ghost h = strs(headers@);
    let ghost ks = strs(key_columns@);
    let mut pos: Vec<usize> = Vec::new();
    let mut i: usize = 0;
    while i < key_columns.len()
        invariant
            i <= key_columns.len(),
            h == strs(headers@),
            ks == strs(key_columns@),
            first_missing(h, ks) == first_missing_from(h, ks, i as int),
            positions_view(pos@) == key_positions(h, ks).take(i as int),
            forall|j: int| 0 <= j < pos@.len() ==> pos@[j] < headers@.len(),
        decreases key_columns.len() - i,
    {
        match find_column(headers, &key_columns[i]) {
            Some(p) => {
                assert(ks[i as int] == key_columns@[i as int]@);
                assert(key_positions(h, ks)[i as int] == p as int);
                let ghost old_pos = pos@;
                pos.push(p);
                assert(positions_view(pos@) =~= positions_view(old_pos).push(p as int));
                i = i + 1;
                assert(positions_view(pos@) =~= key_positions(h, ks).take(i as int));
            },
            None => {
                return Err(IndexError::UnknownKeyColumn(key_columns[i].clone()));
            },
        }
    }
    assert(key_positions(h, ks).take(i as int) =~= key_positions(h, ks));
    Ok(pos)
}

/// Indexes `rows` by the composite key over `key_columns`: fails on the first
/// key column that `headers` lacks; otherwise a later row replaces an earlier
/// one with the same key.
pub fn build_index(headers: &Vec<String>, rows: &Vec<Vec<String>>, key_columns: &Vec<String>) -> (r: Result<RowIndex, IndexError>)
    ensures
        match r {
            Ok(idx) => first_missing(strs(headers@), strs(key_columns@)) is None
                && idx.wf() && idx.rows_read == rows@.len()
                && idx.header_view() == strs(headers@)
                && idx.entries_view() == index_entries(
                    rows_view(rows@),
                    key_positions(strs(headers@), strs(key_columns@)),
                ),
            Err(IndexError::UnknownKeyColumn(name)) =>
                first_missing(strs(headers@), strs(key_columns@)) == Some(name@),
        },
{
    let pos = match resolve_key_columns(headers, key_columns) {
        Ok(pos) => pos,
        Err(e) => {
            return Err(e);
        },
    };
    let ghost posi = positions_view(pos@);
    let ghost rv = rows_view(rows@);
    let mut entries: Vec<(String, Vec<String>)> = Vec::new();
    let mut i: usize = 0;
    while i < rows.len()
        invariant
            i <= rows.len(),
            posi == positions_view(pos@),
            rv == rows_view(rows@),
            entries@.map_values(|e: (String, Vec<String>)| (e.0@, strs(e.1@)))
                == index_entries(rv.take(i as int), posi),
        decreases rows.len() - i,
    {
        let ghost prev = entries@.map_values(|e: (String, Vec<String>)| (e.0@, strs(e.1@)));
        let k = composite_key(&rows[i], &pos);
        let row = clone_strings(&rows[i]);
        let found = find_entry(&entries, &k);
        match found {
            Some(j) => {
                entries.set(j, (k, row));
            },
            None => {
                entries.push((k, row));
            },
        }
        i = i + 1;
        proof {
            let now = rv.take(i as int);
            assert(now.drop_last() =~= rv.take(i - 1));
            assert(now.last() == strs(rows@[i - 1]@));
            assert(entries@.map_values(|e: (String, Vec<String>)| (e.0@, strs(e.1@)))
                =~= index_entries(now, posi));
        }
    }
    assert(rv.take(rows.len() as int) =~= rv);
    proof {
        lemma_index_size(rv, posi);
        crate::laws::lemma_index_keys_distinct(rv, posi);
    }
    Ok(RowIndex { headers: clone_strings(headers), entries, rows_read: rows.len() })
}

} // verus!
