//! The column reconciler: the union of two headers, the role of each column
//! name, and the displayed values of a cell that differs.

use vstd::prelude::*;
use crate::text::{strs, clone_strings};
use crate::index::{column_position, field_at, find_column};

verus! {

/// `s` with every repeated element dropped, first occurrences kept in order.
pub open spec fn dedup(s: Seq<Seq<char>>) -> Seq<Seq<char>>
    decreases s.len(),
{
    if s.len() == 0 {
        Seq::empty()
    } else {
        let d = dedup(s.drop_last());
        if d.contains(s.last()) {
            d
        } else {
            d.push(s.last())
        }
    }
}

/// The column names of both headers, each once: those of the first header
/// in its order, then those only the second header has.
pub open spec fn column_union(h1: Seq<Seq<char>>, h2: Seq<Seq<char>>) -> Seq<Seq<char>> {
    dedup(h1 + h2)
}

/// The role of a column name in a reconciliation.
#[derive(Debug, Clone, Copy, PartialEq, Eq, Structural)]
pub enum ColumnClass {
    /// Identifies rows; never compared.
    Key,
    /// Excluded from comparison by the caller.
    Ignored,
    /// Present in both tables; values are compared.
    Comparable,
    /// Present only in the first table; always reported.
    LeftOnly,
    /// Present only in the second table; always reported.
    RightOnly,
}

/// The role of column `name`, which one of the headers holds.
pub open spec fn class_of(
    name: Seq<char>,
    h1: Seq<Seq<char>>,
    h2: Seq<Seq<char>>,
    keys: Seq<Seq<char>>,
    ignored: Seq<Seq<char>>,
) -> ColumnClass {
    if keys.contains(name) {
        ColumnClass::Key
    } else if ignored.contains(name) {
        ColumnClass::Ignored
    } else if h1.contains(name) {
        if h2.contains(name) {
            ColumnClass::Comparable
        } else {
            ColumnClass::LeftOnly
        }
    } else {
        ColumnClass::RightOnly
    }
}

/// Shown on the second side for a column only the first table has.
pub open spec fn absent_in_right() -> Seq<char> {
    "[column not in file2]"@
}

/// Shown on the first side for a column only the second table has.
pub open spec fn absent_in_left() -> Seq<char> {
    "[column not in file1]"@
}

/// The value of column `name` in `row`, read through `header`; empty when
/// the header lacks the column or the row is short.
pub open spec fn value_of(row: Seq<Seq<char>>, header: Seq<Seq<char>>, name: Seq<char>) -> Seq<char> {
    match column_position(header, name) {
        Some(p) => field_at(row, p),
        None => Seq::empty(),
    }
}

/// The two displayed values of column `name` when the rows differ there.
pub open spec fn cell_diff(
    name: Seq<char>,
    class: ColumnClass,
    r1: Seq<Seq<char>>,
    r2: Seq<Seq<char>>,
    h1: Seq<Seq<char>>,
    h2: Seq<Seq<char>>,
) -> Option<(Seq<char>, Seq<char>)> {
    let v1 = value_of(r1, h1, name);
    let v2 = value_of(r2, h2, name);
    match class {
        ColumnClass::Comparable => if v1 != v2 {
            Some((v1, v2))
        } else {
            None
        },
        ColumnClass::LeftOnly => Some((v1, absent_in_right())),
        ColumnClass::RightOnly => Some((absent_in_left(), v2)),
        _ => None,
    }
}

/// Whether `v` holds `s`.
pub fn contains_string(v: &Vec<String>, s: &String) -> (r: bool)
    ensures
        r == strs(v@).contains(s@),
{
    let mut i: usize = 0;
    while i < v.len()
        invariant
            i <= v.len(),
            forall|j: int| 0 <= j < i ==> strs(v@)[j] != s@,
        decreases v.len() - i,
    {
        if v[i] == *s {
            assert(strs(v@)[i as int] == s@);
            return true;
        }
        i = i + 1;
    }
    false
}

/// The union of two headers' column names, in order of first appearance.
pub fn union_columns(h1: &Vec<String>, h2: &Vec<String>) -> (r: Vec<String>)
    ensures
        strs(r@) == column_union(strs(h1@), strs(h2@)),
{
    let mut all = clone_strings(h1);
    let mut rest = clone_strings(h2);
    all.append(&mut rest);
    assert(strs(all@) =~= strs(h1@) + strs(h2@));
    let ghost s = strs(all@);
    let mut r: Vec<String> = Vec::new();
    let mut i: usize = 0;
    while i < all.len()
        invariant
            i <= all.len(),
            s == strs(all@),
            strs(r@) == dedup(s.take(i as int)),
        decreases all.len() - i,
    {
        let ghost before = s.take(i as int);
        let seen = contains_string(&r, &all[i]);
        if !seen {
            let ghost old_r = r@;
            r.push(all[i].clone());
            assert(strs(r@) =~= strs(old_r).push(all@[i as int]@));
        }
        i = i + 1;
        assert(s.take(i as int).drop_last() =~= before);
    }
    assert(s.take(all.len() as int) =~= s);
    r
}

/// The role of column `name`.
pub fn classify(
    name: &String,
    h1: &Vec<String>,
    h2: &Vec<String>,
    keys: &Vec<String>,
    ignored: &Vec<String>,
) -> (r: ColumnClass)
    ensures
        r == class_of(name@, strs(h1@), strs(h2@), strs(keys@), strs(ignored@)),
{
    if contains_string(keys, name) {
        ColumnClass::Key
    } else if contains_string(ignored, name) {
        ColumnClass::Ignored
    } else if contains_string(h1, name) {
        if contains_string(h2, name) {
            ColumnClass::Comparable
        } else {
            ColumnClass::LeftOnly
        }
    } else {
        ColumnClass::RightOnly
    }
}

/// The role of each column of the union of both headers, in union order.
pub fn classify_columns(
    h1: &Vec<String>,
    h2: &Vec<String>,
    keys: &Vec<String>,
    ignored: &Vec<String>,
) -> (r: Vec<(String, ColumnClass)>)
    ensures
        r@.len() == column_union(strs(h1@), strs(h2@)).len(),
        forall|i: int|
            0 <= i < r@.len() ==> {
                let name = column_union(strs(h1@), strs(h2@))[i];
                &&& (#[trigger] r@[i]).0@ == name
                &&& r@[i].1 == class_of(name, strs(h1@), strs(h2@), strs(keys@), strs(ignored@))
            },
{
    let cols = union_columns(h1, h2);
    let mut r: Vec<(String, ColumnClass)> = Vec::new();
    let mut i: usize = 0;
    while i < cols.len()
        invariant
            i <= cols.len(),
            r@.len() == i,
            strs(cols@) == column_union(strs(h1@), strs(h2@)),
            forall|j: int|
                0 <= j < i ==> {
                    let name = column_union(strs(h1@), strs(h2@))[j];
                    &&& (#[trigger] r@[j]).0@ == name
                    &&& r@[j].1 == class_of(name, strs(h1@), strs(h2@), strs(keys@), strs(ignored@))
                },
        decreases cols.len() - i,
    {
        let c = classify(&cols[i], h1, h2, keys, ignored);
        assert(strs(cols@)[i as int] == cols@[i as int]@);
        r.push((cols[i].clone(), c));
        i = i + 1;
    }
    r
}

/// The value of column `name` in `row`, read through `header`.
pub fn column_value(row: &Vec<String>, header: &Vec<String>, name: &String) -> (r: String)
    ensures
        r@ == value_of(strs(row@), strs(header@), name@),
{
    match find_column(header, name) {
        Some(p) => if p < row.len() {
            row[p].clone()
        } else {
            String::new()
        },
        None => String::new(),
    }
}

/// The two displayed values of column `name` of role `class`, or `None` when
/// the rows agree there or the column is not compared.
pub fn resolve_cell(
    name: &String,
    class: ColumnClass,
    r1: &Vec<String>,
    r2: &Vec<String>,
    h1: &Vec<String>,
    h2: &Vec<String>,
) -> (r: Option<(String, String)>)
    ensures
        match r {
            Some((a, b)) => cell_diff(name@, class, strs(r1@), strs(r2@), strs(h1@), strs(h2@))
                == Some((a@, b@)),
            None => cell_diff(name@, class, strs(r1@), strs(r2@), strs(h1@), strs(h2@)) is None,
        },
{
    match class {
        ColumnClass::Comparable => {
            let v1 = column_value(r1, h1, name);
            let v2 = column_value(r2, h2, name);
            if v1 == v2 {
                None
            } else {
                Some((v1, v2))
            }
        },
        ColumnClass::LeftOnly => {
            let v1 = column_value(r1, h1, name);
            Some((v1, String::from_str("[column not in file2]")))
        },
        ColumnClass::RightOnly => {
            let v2 = column_value(r2, h2, name);
            Some((String::from_str("[column not in file1]"), v2))
        },
        _ => None,
    }
}

} // verus!
