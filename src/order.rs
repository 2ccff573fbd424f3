//! Lexicographic order on strings by code point, and insertion into a
//! strictly ascending list of strings.

use vstd::prelude::*;
use crate::text::strs;

verus! {

/// `a` comes strictly before `b` in code-point lexicographic order.
pub open spec fn lex_lt(a: Seq<char>, b: Seq<char>) -> bool
    decreases a.len(),
{
    if a.len() == 0 {
        b.len() > 0
    } else if b.len() == 0 {
        false
    } else if a[0] != b[0] {
        a[0] < b[0]
    } else {
        lex_lt(a.drop_first(), b.drop_first())
    }
}

/// Each element comes strictly before every later one.
pub open spec fn strictly_ascending(s: Seq<Seq<char>>) -> bool {
    forall|i: int, j: int| 0 <= i < j < s.len() ==> lex_lt(#[trigger] s[i], #[trigger] s[j])
}

/// Of two different strings one comes first, and never both.
pub proof fn lemma_lex_total(a: Seq<char>, b: Seq<char>)
    ensures
        a != b ==> lex_lt(a, b) || lex_lt(b, a),
        !(lex_lt(a, b) && lex_lt(b, a)),
    decreases a.len(),
{
    if a.len() > 0 && b.len() > 0 && a[0] == b[0] {
        lemma_lex_total(a.drop_first(), b.drop_first());
        if a != b {
            assert(a =~= seq![a[0]] + a.drop_first());
            assert(b =~= seq![b[0]] + b.drop_first());
        }
    }
    if a.len() == 0 && b.len() == 0 {
        assert(a =~= b);
    }
}

/// The order is transitive.
pub proof fn lemma_lex_transitive(a: Seq<char>, b: Seq<char>, c: Seq<char>)
    requires
        lex_lt(a, b),
        lex_lt(b, c),
    ensures
        lex_lt(a, c),
    decreases a.len(),
{
    if a.len() > 0 && b.len() > 0 && c.len() > 0 && a[0] == b[0] && b[0] == c[0] {
        lemma_lex_transitive(a.drop_first(), b.drop_first(), c.drop_first());
    }
}

/// Whether `a` comes strictly before `b`.
pub fn str_less(a: &String, b: &String) -> (r: bool)
    ensures
        r == lex_lt(a@, b@),
{
    let sa = a.as_str();
    let sb = b.as_str();
    let na = sa.unicode_len();
    let nb = sb.unicode_len();
    let mut i: usize = 0;
    assert(a@.skip(0) =~= a@);
    assert(b@.skip(0) =~= b@);
    while i < na && i < nb
        invariant
            i <= na == a@.len(),
            nb == b@.len(),
            sa@ == a@,
            sb@ == b@,
            i <= nb,
            lex_lt(a@, b@) == lex_lt(a@.skip(i as int), b@.skip(i as int)),
        decreases na - i,
    {
        let ca = sa.get_char(i);
        let cb = sb.get_char(i);
        if ca != cb {
            assert(a@.skip(i as int)[0] == ca && b@.skip(i as int)[0] == cb);
            return ca < cb;
        }
        assert(a@.skip(i as int).drop_first() =~= a@.skip(i + 1));
        assert(b@.skip(i as int).drop_first() =~= b@.skip(i + 1));
        i = i + 1;
    }
    i < nb
}

/// Inserts `s` into the strictly ascending `v` unless `v` holds it already.
pub fn insert_ascending(v: &mut Vec<String>, s: String)
    requires
        strictly_ascending(strs(old(v)@)),
    ensures
        strictly_ascending(strs(final(v)@)),
        strs(final(v)@).to_set() == strs(old(v)@).to_set().insert(s@),
{
    let ghost before = strs(v@);
    let mut i: usize = 0;
    while i < v.len() && str_less(&v[i], &s)
        invariant
            i <= v.len(),
            before == strs(v@),
            strictly_ascending(before),
            forall|j: int| 0 <= j < i ==> lex_lt(#[trigger] before[j], s@),
        decreases v.len() - i,
    {
        i = i + 1;
    }
    if i < v.len() && v[i] == s {
        assert(before.contains(s@)) by {
            assert(before[i as int] == s@);
        }
        assert(before.to_set() =~= before.to_set().insert(s@));
        return;
    }
    proof {
        if i < v.len() {
            lemma_lex_total(before[i as int], s@);
            assert(lex_lt(s@, before[i as int]));
        }
    }
    v.insert(i, s);
    proof {
        let now = strs(v@);
        assert(now =~= before.insert(i as int, s@));
        assert forall|a: int, b: int| 0 <= a < b < now.len() implies lex_lt(
            #[trigger] now[a],
            #[trigger] now[b],
        ) by {
            if b < i {
            } else if b == i {
                assert(now[a] == before[a]);
            } else if a == i {
                assert(now[b] == before[b - 1]);
                if b - 1 > i {
                    lemma_lex_transitive(s@, before[i as int], before[b - 1]);
                }
            } else if a < i {
                assert(now[a] == before[a]);
                assert(now[b] == before[b - 1]);
            } else {
                assert(now[a] == before[a - 1]);
                assert(now[b] == before[b - 1]);
            }
        }
        assert(now.to_set() =~= before.to_set().insert(s@)) by {
            assert forall|x: Seq<char>| now.to_set().contains(x) <==> before.to_set().insert(
                s@,
            ).contains(x) by {
                if now.contains(x) {
                    let q = choose|q: int| 0 <= q < now.len() && now[q] == x;
                    if q < i {
                        assert(before[q] == x);
                    } else if q > i {
                        assert(before[q - 1] == x);
                    }
                }
                if before.contains(x) {
                    let q = choose|q: int| 0 <= q < before.len() && before[q] == x;
                    if q < i {
                        assert(now[q] == x);
                    } else {
                        assert(now[q + 1] == x);
                    }
                }
                if x == s@ {
                    assert(now[i as int] == x);
                }
            }
        }
    }
}

} // verus!
