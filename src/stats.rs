//! Figures for a workbook export: records by category, and the presence of
//! each column name in the two headers.

use vstd::prelude::*;
use crate::text::{strs, clone_strings};
use crate::columns::contains_string;
use crate::order::{strictly_ascending, insert_ascending};
use crate::engine::{DiffRow, DiffView, diffs_view, missing_in_left, missing_in_right};

verus! {

/// The number of records of `ds` whose column is `marker`.
pub open spec fn count_marked(ds: Seq<DiffView>, marker: Seq<char>) -> nat
    decreases ds.len(),
{
    if ds.len() == 0 {
        0
    } else {
        count_marked(ds.drop_last(), marker) + if ds.last().column == marker {
            1nat
        } else {
            0nat
        }
    }
}

/// Records of a reconciliation by category.
#[derive(Debug, Clone, Copy, PartialEq, Eq)]
pub struct Breakdown {
    /// Records of a cell that differs.
    pub data_differences: usize,
    /// Records of a row that only the second table holds.
    pub missing_in_file1: usize,
    /// Records of a row that only the first table holds.
    pub missing_in_file2: usize,
}

/// Counts the records of `diffs` by category.
pub fn diff_breakdown(diffs: &Vec<DiffRow>) -> (r: Breakdown)
    ensures
        r.missing_in_file1 == count_marked(diffs_view(diffs@), missing_in_left()),
        r.missing_in_file2 == count_marked(diffs_view(diffs@), missing_in_right()),
        r.data_differences + r.missing_in_file1 + r.missing_in_file2 == diffs@.len(),
{
    let ghost ds = diffs_view(diffs@);
    let left_marker = String::from_str("[missing in file1]");
    let right_marker = String::from_str("[missing in file2]");
    let mut data: usize = 0;
    let mut m1: usize = 0;
    let mut m2: usize = 0;
    let mut i: usize = 0;
    while i < diffs.len()
        invariant
            i <= diffs.len(),
            ds == diffs_view(diffs@),
            left_marker@ == missing_in_left(),
            right_marker@ == missing_in_right(),
            m1 == count_marked(ds.take(i as int), missing_in_left()),
            m2 == count_marked(ds.take(i as int), missing_in_right()),
            data + m1 + m2 == i,
        decreases diffs.len() - i,
    {
        proof {
            reveal_strlit("[missing in file1]");
            reveal_strlit("[missing in file2]");
        }
        let ghost before = ds.take(i as int);
        if diffs[i].column == left_marker {
            m1 = m1 + 1;
        } else if diffs[i].column == right_marker {
            m2 = m2 + 1;
        } else {
            data = data + 1;
        }
        i = i + 1;
        assert(ds.take(i as int).drop_last() =~= before);
        assert(missing_in_left() != missing_in_right()) by {
            assert(missing_in_left()[16] != missing_in_right()[16]);
        }
    }
    assert(ds.take(i as int) =~= ds);
    Breakdown { data_differences: data, missing_in_file1: m1, missing_in_file2: m2 }
}

/// Whether two headers are the same sequence of names.
pub fn headers_match(h1: &Vec<String>, h2: &Vec<String>) -> (r: bool)
    ensures
        r == (strs(h1@) == strs(h2@)),
{
    if h1.len() != h2.len() {
        assert(strs(h1@).len() != strs(h2@).len());
        return false;
    }
    let mut i: usize = 0;
    while i < h1.len()
        invariant
            i <= h1.len() == h2.len(),
            forall|j: int| 0 <= j < i ==> strs(h1@)[j] == strs(h2@)[j],
        decreases h1.len() - i,
    {
        if h1[i] != h2[i] {
            assert(strs(h1@)[i as int] != strs(h2@)[i as int]);
            return false;
        }
        i = i + 1;
    }
    assert(strs(h1@) =~= strs(h2@));
    true
}

/// The presence of one column name in the two headers.
#[derive(Debug, Clone, PartialEq, Eq)]
pub struct HeaderStatus {
    pub name: String,
    pub in_file1: bool,
    pub in_file2: bool,
}

impl HeaderStatus {
    /// `Match` for a name both headers hold, else which one holds it.
    pub fn status_label(&self) -> (r: String)
        ensures
            self.in_file1 && self.in_file2 ==> r@ == "Match"@,
            self.in_file1 && !self.in_file2 ==> r@ == "Only in File 1"@,
            !self.in_file1 ==> r@ == "Only in File 2"@,
    {
        if self.in_file1 && self.in_file2 {
            String::from_str("Match")
        } else if self.in_file1 {
            String::from_str("Only in File 1")
        } else {
            String::from_str("Only in File 2")
        }
    }
}

/// The column names of either header, each once, in ascending order.
pub fn sorted_column_names(h1: &Vec<String>, h2: &Vec<String>) -> (r: Vec<String>)
    ensures
        strictly_ascending(strs(r@)),
        strs(r@).to_set() == strs(h1@).to_set().union(strs(h2@).to_set()),
{
    let mut all = clone_strings(h1);
    let mut rest = clone_strings(h2);
    all.append(&mut rest);
    let ghost s = strs(all@);
    assert(s =~= strs(h1@) + strs(h2@));
    let mut r: Vec<String> = Vec::new();
    let mut i: usize = 0;
    assert(strs(r@).to_set() =~= s.take(0).to_set());
    while i < all.len()
        invariant
            i <= all.len(),
            s == strs(all@),
            strictly_ascending(strs(r@)),
            strs(r@).to_set() == s.take(i as int).to_set(),
        decreases all.len() - i,
    {
        insert_ascending(&mut r, all[i].clone());
        proof {
            assert(s.take(i + 1) =~= s.take(i as int).push(s[i as int]));
            s.take(i as int).lemma_push_to_set_commute(s[i as int]);
        }
        i = i + 1;
    }
    assert(s.take(all.len() as int) =~= s);
    assert(s.to_set() =~= strs(h1@).to_set().union(strs(h2@).to_set())) by {
        assert forall|x: Seq<char>| s.to_set().contains(x) <==> strs(h1@).to_set().union(
            strs(h2@).to_set(),
        ).contains(x) by {
            let n1 = strs(h1@).len();
            if s.contains(x) {
                let q = choose|q: int| 0 <= q < s.len() && s[q] == x;
                if q < n1 {
                    assert(strs(h1@)[q] == x);
                } else {
                    assert(strs(h2@)[q - n1] == x);
                }
            }
            if strs(h1@).contains(x) {
                let q = choose|q: int| 0 <= q < n1 && strs(h1@)[q] == x;
                assert(s[q] == x);
            }
            if strs(h2@).contains(x) {
                let q = choose|q: int| 0 <= q < strs(h2@).len() && strs(h2@)[q] == x;
                assert(s[q + n1] == x);
            }
        }
    }
    r
}

/// For each column name of either header, in ascending order, whether each
/// header holds it.
pub fn header_comparison(h1: &Vec<String>, h2: &Vec<String>) -> (r: Vec<HeaderStatus>)
    ensures
        strictly_ascending(r@.map_values(|x: HeaderStatus| x.name@)),
        r@.map_values(|x: HeaderStatus| x.name@).to_set() == strs(h1@).to_set().union(
            strs(h2@).to_set(),
        ),
        forall|i: int|
            0 <= i < r@.len() ==> {
                &&& (#[trigger] r@[i]).in_file1 == strs(h1@).contains(r@[i].name@)
                &&& r@[i].in_file2 == strs(h2@).contains(r@[i].name@)
            },
{
    let names = sorted_column_names(h1, h2);
    let mut r: Vec<HeaderStatus> = Vec::new();
    let mut i: usize = 0;
    while i < names.len()
        invariant
            i <= names.len(),
            r@.map_values(|x: HeaderStatus| x.name@) == strs(names@).take(i as int),
            forall|j: int|
                0 <= j < i ==> {
                    &&& (#[trigger] r@[j]).in_file1 == strs(h1@).contains(r@[j].name@)
                    &&& r@[j].in_file2 == strs(h2@).contains(r@[j].name@)
                },
        decreases names.len() - i,
    {
        let in_file1 = contains_string(h1, &names[i]);
        let in_file2 = contains_string(h2, &names[i]);
        let ghost old_r = r@;
        let st = HeaderStatus { name: names[i].clone(), in_file1, in_file2 };
        r.push(st);
        assert(r@.map_values(|x: HeaderStatus| x.name@) =~= old_r.map_values(
            |x: HeaderStatus| x.name@,
        ).push(names@[i as int]@));
        i = i + 1;
        assert(r@.map_values(|x: HeaderStatus| x.name@) =~= strs(names@).take(i as int));
    }
    assert(strs(names@).take(names.len() as int) =~= strs(names@));
    r
}

} // verus!
