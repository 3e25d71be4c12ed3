//! Sorting by rank: what ranks lower comes first, and what ranks alike keeps its order.
use vstd::prelude::*;

verus! {

/// A way to rank things.
pub trait Rank<T: View>: Sized {
    /// The first ranks strictly below the second.
    spec fn below() -> spec_fn(T::V, T::V) -> bool;

    fn is_below(a: &T, b: &T) -> (r: bool)
        ensures
            r == Self::below()(a@, b@),
    ;
}

pub open spec fn views<T: View>(v: Seq<T>) -> Seq<T::V> {
    v.map_values(|x: T| x@)
}

/// The first position from `k` on whose item ranks above `x`.
pub open spec fn place<A>(s: Seq<A>, x: A, below: spec_fn(A, A) -> bool, k: int) -> int
    decreases s.len() - k,
{
    if k >= s.len() || below(x, s[k]) {
        k
    } else {
        place(s, x, below, k + 1)
    }
}

/// The items by rank.
pub open spec fn ranked<A>(s: Seq<A>, below: spec_fn(A, A) -> bool) -> Seq<A>
    decreases s.len(),
{
    if s.len() == 0 {
        seq![]
    } else {
        let rest = ranked(s.drop_last(), below);
        rest.insert(place(rest, s.last(), below, 0), s.last())
    }
}

fn put<T: View, R: Rank<T>>(v: &mut Vec<T>, x: T)
    ensures
        views(final(v)@) == views(old(v)@).insert(
            place(views(old(v)@), x@, R::below(), 0),
            x@,
        ),
        0 <= place(views(old(v)@), x@, R::below(), 0) <= old(v)@.len(),
{
    let ghost s = views(v@);
    let mut k: usize = 0;
    while k < v.len() && !R::is_below(&x, &v[k])
        invariant
            s == views(v@),
            k <= v@.len(),
            place(s, x@, R::below(), 0) == place(s, x@, R::below(), k as int),
        decreases v.len() - k,
    {
        k = k + 1;
    }
    let ghost seen = x@;
    v.insert(k, x);
    proof {
        assert(views(v@) =~= s.insert(k as int, seen));
    }
}

/// Sorts by rank.
pub fn rank<T: View, R: Rank<T>>(v: Vec<T>) -> (r: Vec<T>)
    ensures
        views(r@) == ranked(views(v@), R::below()),
{
    let ghost all = views(v@);
    let mut rest = v;
    let mut out: Vec<T> = Vec::new();
    let ghost mut i: int = 0;
    proof {
        assert(all.take(0) =~= Seq::<T::V>::empty());
        assert(views(out@) =~= Seq::<T::V>::empty());
        assert(views(rest@) =~= all.skip(0));
    }
    while rest.len() > 0
        invariant
            0 <= i <= all.len(),
            views(rest@) == all.skip(i),
            rest@.len() == all.len() - i,
            views(out@) == ranked(all.take(i), R::below()),
        decreases rest.len(),
    {
        let ghost before = rest@;
        let x = rest.remove(0);
        proof {
            assert(views(before)[0] == x@);
            assert(all[i] == x@);
            assert(views(rest@) =~= all.skip(i + 1)) by {
                assert forall|j: int| 0 <= j < rest@.len() implies views(rest@)[j]
                    == all.skip(i + 1)[j] by {
                    assert(rest@[j] == before[j + 1]);
                    assert(views(before)[j + 1] == all.skip(i)[j + 1]);
                }
            }
            assert(all.take(i + 1).drop_last() =~= all.take(i));
            i = i + 1;
        }
        put::<T, R>(&mut out, x);
    }
    proof {
        assert(all.take(i) =~= all);
    }
    out
}

// ---- laws --------------------------------------------------------------------------------------

/// Nothing ranks both below and above another, and not ranking below is transitive.
pub open spec fn ranks<A>(below: spec_fn(A, A) -> bool) -> bool {
    &&& forall|a: A, b: A| #[trigger] below(a, b) ==> !below(b, a)
    &&& forall|a: A, b: A, c: A|
        !(#[trigger] below(b, a)) && !(#[trigger] below(c, b)) ==> !below(c, a)
}

pub open spec fn in_order<A>(s: Seq<A>, below: spec_fn(A, A) -> bool) -> bool {
    forall|i: int, j: int| 0 <= i < j < s.len() ==> !below(#[trigger] s[j], #[trigger] s[i])
}

/// The items that rank as `c` does.
pub open spec fn alike<A>(c: A, below: spec_fn(A, A) -> bool) -> spec_fn(A) -> bool {
    |x: A| !below(x, c) && !below(c, x)
}

proof fn lemma_place<A>(s: Seq<A>, x: A, below: spec_fn(A, A) -> bool, k: int)
    requires
        0 <= k <= s.len(),
    ensures
        k <= place(s, x, below, k) <= s.len(),
        forall|i: int| k <= i < place(s, x, below, k) ==> !below(x, #[trigger] s[i]),
        place(s, x, below, k) < s.len() ==> below(x, s[place(s, x, below, k)]),
    decreases s.len() - k,
{
    if k < s.len() && !below(x, s[k]) {
        lemma_place(s, x, below, k + 1);
    }
}

proof fn lemma_none_alike<A>(s: Seq<A>, p: spec_fn(A) -> bool)
    requires
        forall|i: int| 0 <= i < s.len() ==> !p(#[trigger] s[i]),
    ensures
        s.filter(p) == Seq::<A>::empty(),
    decreases s.len(),
{
    reveal(Seq::filter);
    if s.len() > 0 {
        lemma_none_alike(s.drop_last(), p);
        assert(!p(s[s.len() - 1]));
    }
    assert(s.filter(p) =~= Seq::<A>::empty());
}

/// Sorting by rank puts the same items in order.
pub proof fn law_ranked<A>(s: Seq<A>, below: spec_fn(A, A) -> bool)
    requires
        ranks(below),
    ensures
        in_order(ranked(s, below), below),
        ranked(s, below).to_multiset() == s.to_multiset(),
        ranked(s, below).len() == s.len(),
    decreases s.len(),
{
    broadcast use vstd::seq_lib::group_to_multiset_ensures;

    if s.len() > 0 {
        let before = s.drop_last();
        law_ranked(before, below);
        let rest = ranked(before, below);
        let x = s.last();
        lemma_place(rest, x, below, 0);
        let p = place(rest, x, below, 0);
        let r = rest.insert(p, x);
        assert forall|i: int, j: int| 0 <= i < j < r.len() implies !below(
            #[trigger] r[j],
            #[trigger] r[i],
        ) by {
            if i < p && j == p {
                assert(r[i] == rest[i]);
            } else if i == p {
                assert(r[j] == rest[j - 1]);
                assert(!below(rest[p], x));
                if p < j - 1 {
                    assert(!below(rest[j - 1], rest[p]));
                    assert(!below(rest[j - 1], x));
                }
            } else if i < p && j < p {
                assert(!below(rest[j], rest[i]));
            } else if i < p {
                assert(!below(rest[j - 1], rest[i]));
            } else {
                assert(!below(rest[j - 1], rest[i - 1]));
            }
        }
        assert(s =~= before.push(x));
        assert(r.to_multiset() =~= rest.to_multiset().insert(x));
        assert(s.to_multiset() =~= before.to_multiset().insert(x));
    } else {
        assert(s =~= Seq::<A>::empty());
        assert(ranked(s, below) =~= s);
    }
}

/// Items that rank alike keep the order in which they came.
pub proof fn law_ranked_is_stable<A>(s: Seq<A>, below: spec_fn(A, A) -> bool, c: A)
    requires
        ranks(below),
    ensures
        ranked(s, below).filter(alike(c, below)) == s.filter(alike(c, below)),
    decreases s.len(),
{
    let p = alike(c, below);
    if s.len() > 0 {
        let before = s.drop_last();
        law_ranked(before, below);
        law_ranked_is_stable(before, below, c);
        let rest = ranked(before, below);
        let x = s.last();
        lemma_place(rest, x, below, 0);
        let k = place(rest, x, below, 0);
        let front = rest.take(k);
        let back = rest.skip(k);
        assert(rest =~= front + back);
        assert(rest.insert(k, x) =~= (front + seq![x]) + back);
        Seq::filter_distributes_over_add(front, back, p);
        Seq::filter_distributes_over_add(front + seq![x], back, p);
        Seq::filter_distributes_over_add(front, seq![x], p);
        Seq::filter_distributes_over_add(before, seq![x], p);
        assert(s =~= before + seq![x]);
        if p(x) {
            assert forall|i: int| 0 <= i < back.len() implies !p(#[trigger] back[i]) by {
                assert(back[i] == rest[k + i]);
                assert(below(x, rest[k]));
                if i > 0 {
                    assert(!below(rest[k + i], rest[k]));
                }
                if p(back[i]) {
                    assert(!below(c, x));
                    assert(!below(x, c));
                    assert(!below(c, back[i]));
                    assert(!below(x, back[i]));
                    assert(!below(back[i], rest[k]));
                    assert(!below(x, rest[k]));
                }
            }
            lemma_none_alike(back, p);
            assert(front.filter(p) + back.filter(p) =~= front.filter(p));
            assert((front.filter(p) + seq![x].filter(p)) + back.filter(p) =~= front.filter(p)
                + seq![x].filter(p));
        } else {
            lemma_none_alike(seq![x], p);
            assert(front.filter(p) + seq![x].filter(p) =~= front.filter(p));
            assert(before.filter(p) + seq![x].filter(p) =~= before.filter(p));
        }
    } else {
        assert(s =~= Seq::<A>::empty());
        assert(ranked(s, below) =~= s);
    }
}

} // verus!
