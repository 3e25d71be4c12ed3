//! The order of strings: by their first difference, a prefix before its extensions.
use vstd::prelude::*;

use crate::text;

verus! {

/// `a` comes strictly before `b`.
pub open spec fn lex_lt(a: Seq<char>, b: Seq<char>) -> bool
    decreases a.len(),
{
    if b.len() == 0 {
        false
    } else if a.len() == 0 {
        true
    } else if a[0] != b[0] {
        a[0] < b[0]
    } else {
        lex_lt(a.skip(1), b.skip(1))
    }
}

pub proof fn lemma_lex_irreflexive(a: Seq<char>)
    ensures
        !lex_lt(a, a),
    decreases a.len(),
{
    if a.len() > 0 {
        lemma_lex_irreflexive(a.skip(1));
    }
}

pub proof fn lemma_lex_transitive(a: Seq<char>, b: Seq<char>, c: Seq<char>)
    requires
        lex_lt(a, b),
        lex_lt(b, c),
    ensures
        lex_lt(a, c),
    decreases a.len(),
{
    if a.len() > 0 && a[0] == b[0] && b[0] == c[0] {
        lemma_lex_transitive(a.skip(1), b.skip(1), c.skip(1));
    }
}

pub proof fn lemma_lex_total(a: Seq<char>, b: Seq<char>)
    ensures
        lex_lt(a, b) || lex_lt(b, a) || a == b,
    decreases a.len(),
{
    if a.len() > 0 && b.len() > 0 && a[0] == b[0] {
        lemma_lex_total(a.skip(1), b.skip(1));
        if a.skip(1) == b.skip(1) {
            assert(a =~= seq![a[0]] + a.skip(1));
            assert(b =~= seq![b[0]] + b.skip(1));
        }
    } else if a.len() == 0 && b.len() == 0 {
        assert(a =~= b);
    }
}

pub fn str_lt(a: &str, b: &str) -> (r: bool)
    ensures
        r == lex_lt(a@, b@),
{
    let x = text::to_chars(a);
    let y = text::to_chars(b);
    let mut i: usize = 0;
    proof {
        assert(a@.skip(0) =~= a@);
        assert(b@.skip(0) =~= b@);
    }
    while i < x.len() && i < y.len()
        invariant
            x@ == a@,
            y@ == b@,
            i <= x@.len(),
            i <= y@.len(),
            lex_lt(a@, b@) == lex_lt(a@.skip(i as int), b@.skip(i as int)),
        decreases x.len() - i,
    {
        proof {
            assert(a@.skip(i as int).skip(1) =~= a@.skip(i as int + 1));
            assert(b@.skip(i as int).skip(1) =~= b@.skip(i as int + 1));
        }
        if x[i] != y[i] {
            return x[i] < y[i];
        }
        i = i + 1;
    }
    i < y.len()
}

// ---- sorting -----------------------------------------------------------------------------

/// `a` does not come after `b`.
pub open spec fn lex_le(a: Seq<char>, b: Seq<char>) -> bool {
    !lex_lt(b, a)
}

pub open spec fn is_sorted(s: Seq<Seq<char>>) -> bool {
    forall|i: int, j: int| 0 <= i < j < s.len() ==> lex_le(#[trigger] s[i], #[trigger] s[j])
}

/// The first position from `k` on whose text comes after `x`.
pub open spec fn place_of(s: Seq<Seq<char>>, x: Seq<char>, k: int) -> int
    decreases s.len() - k,
{
    if k >= s.len() || lex_lt(x, s[k]) {
        k
    } else {
        place_of(s, x, k + 1)
    }
}

/// The texts in order.
pub open spec fn sorted(s: Seq<Seq<char>>) -> Seq<Seq<char>>
    decreases s.len(),
{
    if s.len() == 0 {
        seq![]
    } else {
        let rest = sorted(s.drop_last());
        rest.insert(place_of(rest, s.last(), 0), s.last())
    }
}

proof fn lemma_place_of(s: Seq<Seq<char>>, x: Seq<char>, k: int)
    requires
        0 <= k <= s.len(),
    ensures
        k <= place_of(s, x, k) <= s.len(),
        forall|i: int| k <= i < place_of(s, x, k) ==> lex_le(#[trigger] s[i], x),
        place_of(s, x, k) < s.len() ==> lex_lt(x, s[place_of(s, x, k)]),
    decreases s.len() - k,
{
    if k < s.len() && !lex_lt(x, s[k]) {
        lemma_place_of(s, x, k + 1);
    }
}

pub proof fn lemma_lex_le_transitive(a: Seq<char>, b: Seq<char>, c: Seq<char>)
    requires
        lex_le(a, b),
        lex_le(b, c),
    ensures
        lex_le(a, c),
{
    lemma_lex_total(a, b);
    lemma_lex_total(b, c);
    if lex_lt(c, a) {
        if a == b {
        } else if b == c {
        } else {
            lemma_lex_transitive(a, b, c);
            lemma_lex_transitive(a, c, a);
            lemma_lex_irreflexive(a);
        }
    }
}

proof fn lemma_lt_le(a: Seq<char>, b: Seq<char>)
    requires
        lex_lt(a, b),
    ensures
        lex_le(a, b),
{
    if lex_lt(b, a) {
        lemma_lex_transitive(a, b, a);
        lemma_lex_irreflexive(a);
    }
}

/// Sorting puts the same texts in order.
pub proof fn law_sorted(s: Seq<Seq<char>>)
    ensures
        is_sorted(sorted(s)),
        sorted(s).to_multiset() == s.to_multiset(),
        sorted(s).len() == s.len(),
    decreases s.len(),
{
    broadcast use vstd::seq_lib::group_to_multiset_ensures;

    if s.len() > 0 {
        let before = s.drop_last();
        law_sorted(before);
        let rest = sorted(before);
        let x = s.last();
        lemma_place_of(rest, x, 0);
        let p = place_of(rest, x, 0);
        let r = rest.insert(p, x);
        assert forall|i: int, j: int| 0 <= i < j < r.len() implies lex_le(
            #[trigger] r[i],
            #[trigger] r[j],
        ) by {
            if i < p && j == p {
                assert(r[i] == rest[i]);
            } else if i == p {
                assert(r[j] == rest[j - 1]);
                lemma_lt_le(x, rest[p]);
                if p < j - 1 {
                    assert(lex_le(rest[p], rest[j - 1]));
                    lemma_lex_le_transitive(x, rest[p], rest[j - 1]);
                }
            } else if i < p && j < p {
                assert(lex_le(rest[i], rest[j]));
            } else if i < p {
                assert(lex_le(rest[i], rest[j - 1]));
            } else {
                assert(lex_le(rest[i - 1], rest[j - 1]));
            }
        }
        assert(s =~= before.push(x));
        assert(r.to_multiset() =~= rest.to_multiset().insert(x));
        assert(s.to_multiset() =~= before.to_multiset().insert(x));
    } else {
        assert(s =~= Seq::<Seq<char>>::empty());
        assert(sorted(s) =~= s);
    }
}

fn insert_in_order(v: &mut Vec<String>, x: String)
    ensures
        text::texts(final(v)@) == text::texts(old(v)@).insert(
            place_of(text::texts(old(v)@), x@, 0),
            x@,
        ),
        0 <= place_of(text::texts(old(v)@), x@, 0) <= old(v)@.len(),
{
    let ghost s = text::texts(v@);
    let mut k: usize = 0;
    while k < v.len() && !str_lt(x.as_str(), v[k].as_str())
        invariant
            s == text::texts(v@),
            k <= v@.len(),
            place_of(s, x@, 0) == place_of(s, x@, k as int),
        decreases v.len() - k,
    {
        k = k + 1;
    }
    v.insert(k, x);
    proof {
        assert(text::texts(v@) =~= s.insert(k as int, x@));
    }
}

pub fn sort_strings(v: Vec<String>) -> (r: Vec<String>)
    ensures
        text::texts(r@) == sorted(text::texts(v@)),
{
    let ghost all = text::texts(v@);
    let mut rest = v;
    let mut out: Vec<String> = Vec::new();
    let ghost mut i: int = 0;
    proof {
        assert(all.take(0) =~= Seq::<Seq<char>>::empty());
        assert(text::texts(out@) =~= Seq::<Seq<char>>::empty());
        assert(text::texts(rest@) =~= all.skip(0));
    }
    while rest.len() > 0
        invariant
            0 <= i <= all.len(),
            text::texts(rest@) == all.skip(i),
            rest@.len() == all.len() - i,
            text::texts(out@) == sorted(all.take(i)),
        decreases rest.len(),
    {
        let ghost before = rest@;
        let x = rest.remove(0);
        proof {
            assert(text::texts(before)[0] == x@);
            assert(all[i] == x@);
            assert(text::texts(rest@) =~= all.skip(i + 1)) by {
                assert forall|j: int| 0 <= j < rest@.len() implies text::texts(rest@)[j]
                    == all.skip(i + 1)[j] by {
                    assert(rest@[j] == before[j + 1]);
                    assert(text::texts(before)[j + 1] == all.skip(i)[j + 1]);
                }
            }
            assert(all.take(i + 1).drop_last() =~= all.take(i));
            i = i + 1;
        }
        insert_in_order(&mut out, x);
    }
    proof {
        assert(all.take(i) =~= all);
    }
    out
}

/// A text comes before another exactly where they first differ by a smaller character, or where it
/// ends first.
pub proof fn law_order(common: Seq<char>, a: char, x: Seq<char>, b: char, y: Seq<char>)
    ensures
        a < b ==> lex_lt(common + seq![a] + x, common + seq![b] + y),
        a > b ==> !lex_lt(common + seq![a] + x, common + seq![b] + y),
        lex_lt(common, common + seq![b] + y),
        !lex_lt(common + seq![b] + y, common),
        !lex_lt(common, common),
    decreases common.len(),
{
    let s = common + seq![a] + x;
    let t = common + seq![b] + y;
    if common.len() == 0 {
        assert(s[0] == a && t[0] == b);
    } else {
        law_order(common.skip(1), a, x, b, y);
        assert(s.skip(1) =~= common.skip(1) + seq![a] + x);
        assert(t.skip(1) =~= common.skip(1) + seq![b] + y);
        assert(s[0] == common[0] && t[0] == common[0]);
    }
}

} // verus!
