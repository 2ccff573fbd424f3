//! String helpers with character-count semantics: joining, truncation,
//! row previews and decimal rendering of counts.

use vstd::prelude::*;

verus! {

/// The view of a sequence of owned strings as a sequence of character sequences.
pub open spec fn strs(v: Seq<String>) -> Seq<Seq<char>> {
    v.map_values(|s: String| s@)
}

/// `parts` joined with `sep` between consecutive parts.
pub open spec fn join(parts: Seq<Seq<char>>, sep: Seq<char>) -> Seq<char>
    decreases parts.len(),
{
    if parts.len() == 0 {
        Seq::empty()
    } else if parts.len() == 1 {
        parts[0]
    } else {
        join(parts.drop_last(), sep) + sep + parts.last()
    }
}

pub open spec fn ellipsis() -> Seq<char> {
    seq!['.', '.', '.']
}

/// `s` cut to at most `width` characters: a longer string keeps its first
/// `width - 3` characters (none when `width < 3`) followed by `...`.
pub open spec fn truncated(s: Seq<char>, width: nat) -> Seq<char> {
    if s.len() <= width {
        s
    } else {
        let cut: int = if width >= 3 { width - 3 } else { 0 };
        s.take(cut) + ellipsis()
    }
}

/// Longest preview of a row, in characters.
pub const PREVIEW_WIDTH: usize = 50;

/// Characters of the row kept when a preview is cut.
pub const PREVIEW_CUT: usize = 47;

/// The fields of a row joined by commas; from 50 characters on it is cut to
/// its first 47 characters followed by `...`.
pub open spec fn preview_of(row: Seq<Seq<char>>) -> Seq<char> {
    let j = join(row, seq![',']);
    if j.len() >= PREVIEW_WIDTH {
        j.take(PREVIEW_CUT as int) + ellipsis()
    } else {
        j
    }
}

pub open spec fn digit(d: nat) -> char {
    seq!['0', '1', '2', '3', '4', '5', '6', '7', '8', '9'][d as int]
}

/// The decimal numeral of `n`, without leading zeros.
pub open spec fn decimal(n: nat) -> Seq<char>
    decreases n,
{
    if n < 10 {
        seq![digit(n)]
    } else {
        decimal(n / 10) + seq![digit(n % 10)]
    }
}

/// A copy of every string of `v`.
pub fn clone_strings(v: &Vec<String>) -> (r: Vec<String>)
    ensures
        r@ == v@,
{
    let mut r: Vec<String> = Vec::new();
    let mut i: usize = 0;
    while i < v.len()
        invariant
            i <= v.len(),
            r@ == v@.take(i as int),
        decreases v.len() - i,
    {
        r.push(v[i].clone());
        i = i + 1;
        assert(r@ =~= v@.take(i as int));
    }
    assert(r@ =~= v@);
    r
}

/// Joins the strings of `parts` with `sep` between consecutive ones.
pub fn join_strings(parts: &Vec<String>, sep: &str) -> (r: String)
    ensures
        r@ == join(strs(parts@), sep@),
{
    let mut r = String::new();
    let mut i: usize = 0;
    while i < parts.len()
        invariant
            i <= parts.len(),
            r@ == join(strs(parts@).take(i as int), sep@),
        decreases parts.len() - i,
    {
        let ghost before = strs(parts@).take(i as int);
        if i > 0 {
            r.append(sep);
        }
        r.append(parts[i].as_str());
        i = i + 1;
        proof {
            let now = strs(parts@).take(i as int);
            assert(now.drop_last() =~= before);
            if i == 1 {
                assert(before =~= Seq::<Seq<char>>::empty());
                assert(r@ =~= now[0]);
            }
        }
    }
    assert(strs(parts@).take(parts.len() as int) =~= strs(parts@));
    r
}

/// Cuts `s` to at most `max_width` characters, marking a cut with `...`;
/// when `max_width < 3` a cut string is `...` alone.
pub fn truncate_string(s: &str, max_width: usize) -> (r: String)
    ensures
        r@ == truncated(s@, max_width as nat),
{
    let n = s.unicode_len();
    if n <= max_width {
        String::from_str(s)
    } else {
        let cut: usize = if max_width >= 3 { max_width - 3 } else { 0 };
        let mut r = String::from_str(s.substring_char(0, cut));
        proof {
            reveal_strlit("...");
        }
        r.append("...");
        assert(r@ =~= truncated(s@, max_width as nat));
        r
    }
}

/// The preview of a row that only one table holds: its fields joined by
/// commas, cut from 50 characters on.
pub fn row_preview(row: &Vec<String>) -> (r: String)
    ensures
        r@ == preview_of(strs(row@)),
{
    proof {
        reveal_strlit(",");
    }
    let joined = join_strings(row, ",");
    assert(","@ =~= seq![',']);
    let n = joined.as_str().unicode_len();
    if n >= PREVIEW_WIDTH {
        let mut r = String::from_str(joined.as_str().substring_char(0, PREVIEW_CUT));
        proof {
            reveal_strlit("...");
        }
        r.append("...");
        assert(r@ =~= preview_of(strs(row@)));
        r
    } else {
        joined
    }
}

fn digit_string(d: usize) -> (r: String)
    requires
        d < 10,
    ensures
        r@ == seq![digit(d as nat)],
{
    let digits = "0123456789";
    proof {
        reveal_strlit("0123456789");
    }
    let r = String::from_str(digits.substring_char(d, d + 1));
    assert(r@ =~= seq![digit(d as nat)]);
    r
}

/// The decimal numeral of `n`.
pub fn decimal_string(n: usize) -> (r: String)
    ensures
        r@ == decimal(n as nat),
    decreases n,
{
    if n < 10 {
        digit_string(n)
    } else {
        let mut r = decimal_string(n / 10);
        let last = digit_string(n % 10);
        r.append(last.as_str());
        r
    }
}

} // verus!
