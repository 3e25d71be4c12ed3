//! Splitting, counting and replacing in texts.
use vstd::prelude::*;

use crate::text;

verus! {

// ---- words ----------------------------------------------------------------------------

/// How many characters stand before the first whitespace.
pub open spec fn word_len(s: Seq<char>) -> nat
    decreases s.len(),
{
    if s.len() == 0 || text::is_space(s[0]) {
        0
    } else {
        1 + word_len(s.drop_first())
    }
}

pub proof fn lemma_word_len(s: Seq<char>)
    ensures
        word_len(s) <= s.len(),
    decreases s.len(),
{
    if s.len() > 0 && !text::is_space(s[0]) {
        lemma_word_len(s.drop_first());
    }
}

pub proof fn lemma_trim_start_len(s: Seq<char>)
    ensures
        text::trim_start(s).len() <= s.len(),
        text::trim_start(s).len() > 0 ==> !text::is_space(text::trim_start(s)[0]),
    decreases s.len(),
{
    if s.len() > 0 && text::is_space(s[0]) {
        lemma_trim_start_len(s.drop_first());
    }
}

/// The maximal runs of characters that are not whitespace, in order.
pub open spec fn words(s: Seq<char>) -> Seq<Seq<char>>
    decreases s.len(),
{
    let t = text::trim_start(s);
    if t.len() == 0 {
        seq![]
    } else {
        let k = word_len(t) as int;
        proof {
            lemma_trim_start_len(s);
            lemma_word_len(t);
        }
        seq![t.take(k)] + words(t.skip(k))
    }
}

/// The text with each run of whitespace made one space, and none at its ends.
pub open spec fn normalize(s: Seq<char>) -> Seq<char> {
    text::join(words(s), seq![' '])
}

pub fn split_words(s: &str) -> (r: Vec<String>)
    ensures
        text::texts(r@) == words(s@),
{
    let v = text::to_chars(s);
    let n = v.len();
    let mut out: Vec<String> = Vec::new();
    let mut i: usize = 0;
    proof {
        assert(v@.skip(0) =~= v@);
        assert(text::texts(out@) + words(v@) =~= words(v@));
    }
    loop
        invariant
            i <= n,
            n == v@.len(),
            v@ == s@,
            text::texts(out@) + words(v@.skip(i as int)) == words(v@),
        decreases n - i,
    {
        let ghost rest = v@.skip(i as int);
        let mut a: usize = i;
        while a < n && text::is_whitespace(v[a])
            invariant
                i <= a <= n,
                n == v@.len(),
                text::trim_start(v@.skip(a as int)) == text::trim_start(v@.skip(i as int)),
            decreases n - a,
        {
            proof {
                assert(v@.skip(a as int).drop_first() =~= v@.skip(a as int + 1));
            }
            a = a + 1;
        }
        let ghost t = v@.skip(a as int);
        assert(text::trim_start(rest) == t);
        if a == n {
            proof {
                assert(text::texts(out@) + words(rest) =~= text::texts(out@));
            }
            return out;
        }
        let mut b: usize = a;
        while b < n && !text::is_whitespace(v[b])
            invariant
                a <= b <= n,
                n == v@.len(),
                word_len(v@.skip(a as int)) == (b - a) + word_len(v@.skip(b as int)),
            decreases n - b,
        {
            proof {
                assert(v@.skip(b as int).drop_first() =~= v@.skip(b as int + 1));
            }
            b = b + 1;
        }
        let w = text::substring(&v, a, b);
        proof {
            let k = (b - a) as int;
            assert(t.take(k) =~= w@);
            assert(t.skip(k) =~= v@.skip(b as int));
            assert(words(rest) == seq![t.take(k)] + words(t.skip(k)));
            assert(text::texts(out@.push(w)) =~= text::texts(out@).push(w@));
            assert(text::texts(out@) + words(rest) =~= text::texts(out@).push(w@) + words(v@.skip(b as int)));
        }
        out.push(w);
        i = b;
    }
}

pub fn normalized(s: &str) -> (r: String)
    ensures
        r@ == normalize(s@),
{
    let parts = split_words(s);
    let sep = " ";
    proof {
        reveal_strlit(" ");
        assert(" "@ =~= seq![' ']);
    }
    text::join_strings(&parts, sep)
}

// ---- counting and replacing -----------------------------------------------------------

/// How often `t` occurs in `s` at or after `pos`, counted from the left without overlap.
pub open spec fn count_from(s: Seq<char>, t: Seq<char>, pos: int) -> nat
    decreases s.len() - pos + 1,
{
    if pos < 0 || t.len() == 0 {
        0
    } else {
        match text::find_from(s, t, pos) {
            None => 0,
            Some(i) => {
                proof {
                    text::lemma_find_from(s, t, pos);
                }
                1 + count_from(s, t, i + t.len())
            },
        }
    }
}

/// How often `t` occurs in `s`, without overlap. The empty text occurs before every
/// character and at the end.
pub open spec fn count(s: Seq<char>, t: Seq<char>) -> nat {
    if t.len() == 0 {
        s.len() + 1
    } else {
        count_from(s, t, 0)
    }
}

/// `s` from `pos` on, with every occurrence of `t` replaced by `u`.
pub open spec fn replace_from(s: Seq<char>, t: Seq<char>, u: Seq<char>, pos: int) -> Seq<char>
    decreases s.len() - pos + 1,
{
    if pos < 0 || t.len() == 0 {
        s
    } else {
        match text::find_from(s, t, pos) {
            None => s.skip(pos),
            Some(i) => {
                proof {
                    text::lemma_find_from(s, t, pos);
                }
                s.subrange(pos, i) + u + replace_from(s, t, u, i + t.len())
            },
        }
    }
}

/// `u` before every character of `s` and at its end.
pub open spec fn interleave(s: Seq<char>, u: Seq<char>) -> Seq<char>
    decreases s.len(),
{
    if s.len() == 0 {
        u
    } else {
        interleave(s.drop_last(), u).push(s.last()) + u
    }
}

/// `s` with every occurrence of `t` replaced by `u`.
pub open spec fn replace_all(s: Seq<char>, t: Seq<char>, u: Seq<char>) -> Seq<char> {
    if t.len() == 0 {
        interleave(s, u)
    } else {
        replace_from(s, t, u, 0)
    }
}

/// `s` with the first occurrence of `t` replaced by `u`.
pub open spec fn replace_first(s: Seq<char>, t: Seq<char>, u: Seq<char>) -> Seq<char> {
    match text::find_from(s, t, 0) {
        None => s,
        Some(i) => s.take(i) + u + s.skip(i + t.len()),
    }
}

/// Counts occurrences; the count saturates at the largest `usize`.
pub fn count_matches(s: &str, t: &str) -> (r: usize)
    ensures
        r == (if count(s@, t@) <= usize::MAX {
            count(s@, t@)
        } else {
            usize::MAX as nat
        }),
{
    let v = text::to_chars(s);
    let w = text::to_chars(t);
    if w.len() == 0 {
        return v.len().saturating_add(1);
    }
    let total = v.len();
    let mut n: usize = 0;
    let mut pos: usize = 0;
    loop
        invariant
            0 < w@.len(),
            pos <= v@.len(),
            n <= pos,
            total == v@.len(),
            v@ == s@,
            w@ == t@,
            n + count_from(v@, w@, pos as int) == count_from(v@, w@, 0),
        decreases v@.len() + 1 - pos,
    {
        match text::find_chars(&v, &w, pos) {
            None => {
                return n;
            },
            Some(i) => {
                n = n + 1;
                pos = i + w.len();
            },
        }
    }
}

pub fn replaced_all(s: &str, t: &str, u: &str) -> (r: String)
    ensures
        r@ == replace_all(s@, t@, u@),
{
    let v = text::to_chars(s);
    let w = text::to_chars(t);
    let mut out = String::new();
    if w.len() == 0 {
        out.append(u);
        let mut i: usize = 0;
        proof {
            assert(v@.take(0) =~= Seq::<char>::empty());
            assert(Seq::<char>::empty() + u@ =~= u@);
        }
        while i < v.len()
            invariant
                i <= v@.len(),
                out@ == interleave(v@.take(i as int), u@),
            decreases v.len() - i,
        {
            proof {
                assert(v@.take(i as int + 1).drop_last() =~= v@.take(i as int));
            }
            out.push(v[i]);
            out.append(u);
            i = i + 1;
        }
        proof {
            assert(v@.take(i as int) =~= v@);
        }
        return out;
    }
    let total = v.len();
    let mut pos: usize = 0;
    proof {
        assert(out@ + replace_from(v@, w@, u@, 0) =~= replace_from(v@, w@, u@, 0));
    }
    loop
        invariant
            0 < w@.len(),
            pos <= v@.len(),
            total == v@.len(),
            v@ == s@,
            w@ == t@,
            out@ + replace_from(v@, w@, u@, pos as int) == replace_from(v@, w@, u@, 0),
        decreases v@.len() + 1 - pos,
    {
        match text::find_chars(&v, &w, pos) {
            None => {
                let rest = text::substring(&v, pos, v.len());
                proof {
                    assert(rest@ =~= v@.skip(pos as int));
                }
                out.append(rest.as_str());
                return out;
            },
            Some(i) => {
                let part = text::substring(&v, pos, i);
                proof {
                    let tail = replace_from(v@, w@, u@, i + w@.len());
                    assert(out@ + (part@ + u@ + tail) =~= (out@ + part@ + u@) + tail);
                }
                out.append(part.as_str());
                out.append(u);
                pos = i + w.len();
            },
        }
    }
}

pub fn replaced_first(s: &str, t: &str, u: &str) -> (r: String)
    ensures
        r@ == replace_first(s@, t@, u@),
{
    let v = text::to_chars(s);
    let w = text::to_chars(t);
    let total = v.len();
    match text::find_chars(&v, &w, 0) {
        None => s.to_owned(),
        Some(i) => {
            let mut out = text::substring(&v, 0, i);
            out.append(u);
            let rest = text::substring(&v, i + w.len(), total);
            proof {
                assert(v@.subrange(0, i as int) =~= s@.take(i as int));
                assert(rest@ =~= s@.skip(i + w@.len()));
            }
            out.append(rest.as_str());
            out
        },
    }
}

// ---- laws -----------------------------------------------------------------------------

/// `t` first occurs in `before + t + after` right behind `before`.
pub open spec fn first_at(before: Seq<char>, t: Seq<char>, after: Seq<char>) -> bool {
    forall|j: int| 0 <= j < before.len() ==> !#[trigger] text::occurs_at(before + t + after, t, j)
}

proof fn lemma_first(before: Seq<char>, t: Seq<char>, after: Seq<char>)
    requires
        first_at(before, t, after),
    ensures
        text::find_from(before + t + after, t, 0) == Some(before.len() as int),
{
    let s = before + t + after;
    assert(s.subrange(before.len() as int, (before.len() + t.len()) as int) =~= t);
    text::lemma_find_is(s, t, 0, before.len() as int);
}

/// Replacing the first occurrence keeps what is before and behind it, whatever takes its place;
/// a text without an occurrence stays as it is.
pub proof fn law_replace_first(
    before: Seq<char>,
    t: Seq<char>,
    after: Seq<char>,
    u: Seq<char>,
)
    ensures
        first_at(before, t, after) ==> replace_first(before + t + after, t, u) == before + u + after,
        !text::contains(before, t) ==> replace_first(before, t, u) == before,
{
    if first_at(before, t, after) {
        let s = before + t + after;
        lemma_first(before, t, after);
        assert(s.take(before.len() as int) =~= before);
        assert(s.skip((before.len() + t.len()) as int) =~= after);
    }
    text::lemma_contains_find(before, t);
}

proof fn lemma_find_shift(s: Seq<char>, t: Seq<char>, pos: int)
    requires
        0 <= pos <= s.len(),
    ensures
        text::find_from(s, t, pos) == (match text::find_from(s.skip(pos), t, 0) {
            Some(i) => Some(i + pos),
            None => None,
        }),
{
    let rest = s.skip(pos);
    assert forall|j: int| 0 <= j implies #[trigger] text::occurs_at(rest, t, j) == text::occurs_at(
        s,
        t,
        j + pos,
    ) by {
        if j + t.len() <= rest.len() {
            assert(rest.subrange(j, j + t.len()) =~= s.subrange(j + pos, j + pos + t.len()));
        }
    }
    text::lemma_find_from(rest, t, 0);
    match text::find_from(rest, t, 0) {
        Some(i) => {
            assert forall|j: int| pos <= j < i + pos implies !text::occurs_at(s, t, j) by {
                assert(!text::occurs_at(rest, t, j - pos));
            }
            assert(text::occurs_at(rest, t, i));
            text::lemma_find_is(s, t, pos, i + pos);
        },
        None => {
            text::lemma_find_from(s, t, pos);
            if let Some(i) = text::find_from(s, t, pos) {
                assert(text::occurs_at(rest, t, i - pos));
            }
        },
    }
}

proof fn lemma_shift(s: Seq<char>, t: Seq<char>, u: Seq<char>, pos: int)
    requires
        0 <= pos <= s.len(),
        t.len() > 0,
    ensures
        replace_from(s, t, u, pos) == replace_from(s.skip(pos), t, u, 0),
        count_from(s, t, pos) == count_from(s.skip(pos), t, 0),
    decreases s.len() - pos,
{
    let rest = s.skip(pos);
    lemma_find_shift(s, t, pos);
    text::lemma_find_from(rest, t, 0);
    match text::find_from(rest, t, 0) {
        None => {
            assert(rest.skip(0) =~= rest);
        },
        Some(i) => {
            let next = i + t.len();
            assert(rest.subrange(0, i) =~= s.subrange(pos, i + pos));
            lemma_shift(s, t, u, next + pos);
            lemma_shift(rest, t, u, next);
            assert(rest.skip(next) =~= s.skip(next + pos));
        },
    }
}

/// Replacing every occurrence: where there is none the text stays as it is; else what is before
/// the first one stays, the first one is replaced, and then those in the rest. They are counted
/// in the same way.
pub proof fn law_replace_all(
    before: Seq<char>,
    t: Seq<char>,
    after: Seq<char>,
    u: Seq<char>,
)
    requires
        t.len() > 0,
    ensures
        first_at(before, t, after) ==> replace_all(before + t + after, t, u) == before + u
            + replace_all(after, t, u) && count(before + t + after, t) == 1 + count(after, t),
        !text::contains(before, t) ==> replace_all(before, t, u) == before && count(before, t) == 0,
{
    if first_at(before, t, after) {
        let s = before + t + after;
        lemma_first(before, t, after);
        let next = before.len() + t.len();
        lemma_shift(s, t, u, next as int);
        assert(s.skip(next as int) =~= after);
        assert(s.subrange(0, before.len() as int) =~= before);
    }
    if !text::contains(before, t) {
        text::lemma_contains_find(before, t);
        assert(before.skip(0) =~= before);
    }
}

/// The empty text is taken to stand before every character and at the end.
pub proof fn law_replace_nothing(s: Seq<char>, c: char, u: Seq<char>)
    ensures
        replace_all(Seq::<char>::empty(), Seq::<char>::empty(), u) == u,
        replace_all(s.push(c), Seq::<char>::empty(), u) == replace_all(
            s,
            Seq::<char>::empty(),
            u,
        ).push(c) + u,
        count(s, Seq::<char>::empty()) == s.len() + 1,
{
    assert(s.push(c).drop_last() =~= s);
}

proof fn lemma_split(s: Seq<char>, t: Seq<char>, u: Seq<char>) -> (pieces: Seq<Seq<char>>)
    requires
        t.len() > 0,
    ensures
        pieces.len() == count(s, t) + 1,
        s == text::join(pieces, t),
        replace_all(s, t, u) == text::join(pieces, u),
        forall|i: int| 0 <= i < pieces.len() ==> !text::contains(#[trigger] pieces[i], t),
    decreases s.len(),
{
    text::lemma_contains_find(s, t);
    text::lemma_find_from(s, t, 0);
    match text::find_from(s, t, 0) {
        None => {
            law_replace_all(s, t, s, u);
            let pieces = seq![s];
            assert(!text::contains(pieces[0], t));
            pieces
        },
        Some(i) => {
            let before = s.take(i);
            let after = s.skip(i + t.len());
            assert(s =~= before + t + after);
            law_replace_all(before, t, after, u);
            let rest = lemma_split(after, t, u);
            let pieces = seq![before] + rest;
            text::law_join(seq![before], rest, t);
            text::law_join(seq![before], rest, u);
            assert(text::join(pieces, t) =~= s);
            assert(text::join(pieces, u) =~= before + u + replace_all(after, t, u));
            assert forall|k: int| 0 <= k < pieces.len() implies !text::contains(
                #[trigger] pieces[k],
                t,
            ) by {
                if k == 0 {
                    if text::contains(before, t) {
                        let j = choose|j: int| text::occurs_at(before, t, j);
                        assert(s.subrange(j, j + t.len()) =~= before.subrange(j, j + t.len()));
                        assert(text::occurs_at(s, t, j));
                        assert(j < i);
                    }
                } else {
                    assert(pieces[k] == rest[k - 1]);
                }
            }
            pieces
        },
    }
}

/// Replacing every occurrence changes nothing else: the text falls into pieces that do not hold
/// what is replaced, and these stay, with the other text between them.
pub proof fn law_replace_all_keeps_the_rest(s: Seq<char>, t: Seq<char>, u: Seq<char>)
    requires
        t.len() > 0,
    ensures
        exists|pieces: Seq<Seq<char>>|
            {
                &&& s == #[trigger] text::join(pieces, t)
                &&& replace_all(s, t, u) == text::join(pieces, u)
                &&& pieces.len() == count(s, t) + 1
                &&& forall|i: int|
                    0 <= i < pieces.len() ==> !text::contains(#[trigger] pieces[i], t)
            },
{
    let pieces = lemma_split(s, t, u);
    assert(s == text::join(pieces, t));
}

pub open spec fn no_spaces(s: Seq<char>) -> bool {
    forall|i: int| 0 <= i < s.len() ==> !text::is_space(#[trigger] s[i])
}

proof fn lemma_word_len_is(w: Seq<char>, rest: Seq<char>)
    requires
        no_spaces(w),
        rest.len() > 0 ==> text::is_space(rest[0]),
    ensures
        word_len(w + rest) == w.len(),
    decreases w.len(),
{
    let s = w + rest;
    if w.len() > 0 {
        assert(s[0] == w[0]);
        assert(!text::is_space(w[0]));
        let tail = w.drop_first();
        assert forall|i: int| 0 <= i < tail.len() implies !text::is_space(#[trigger] tail[i]) by {
            assert(!text::is_space(w[i + 1]));
        }
        lemma_word_len_is(tail, rest);
        assert(s.drop_first() =~= tail + rest);
    } else if rest.len() > 0 {
        assert(s[0] == rest[0]);
    }
}

proof fn lemma_trim_gap(gap: Seq<char>, rest: Seq<char>)
    requires
        text::all_spaces(gap),
    ensures
        text::trim_start(gap + rest) == text::trim_start(rest),
    decreases gap.len(),
{
    if gap.len() == 0 {
        assert(gap + rest =~= rest);
    } else {
        assert(text::is_space(gap[0]));
        let tail = gap.drop_first();
        assert forall|i: int| 0 <= i < tail.len() implies text::is_space(#[trigger] tail[i]) by {
            assert(text::is_space(gap[i + 1]));
        }
        lemma_trim_gap(tail, rest);
        assert((gap + rest).drop_first() =~= tail + rest);
        assert((gap + rest)[0] == gap[0]);
    }
}

/// The words of a text: leading whitespace does not count, and a word goes up to the next
/// whitespace. Texts are alike but for whitespace when their words, with single spaces between
/// them, are the same.
pub proof fn law_words(gap: Seq<char>, w: Seq<char>, rest: Seq<char>)
    requires
        text::all_spaces(gap),
        no_spaces(w),
        w.len() > 0,
        rest.len() > 0 ==> text::is_space(rest[0]),
    ensures
        words(gap) == Seq::<Seq<char>>::empty(),
        words(gap + w + rest) == seq![w] + words(rest),
        normalize(gap + w + rest) == text::join(seq![w] + words(rest), " "@),
        normalize(gap) == Seq::<char>::empty(),
{
    let s = gap + w + rest;
    let t = w + rest;
    assert(s =~= gap + t);
    lemma_trim_gap(gap, t);
    assert(t[0] == w[0]);
    assert(!text::is_space(w[0]));
    assert(text::trim_start(t) == t);
    lemma_word_len_is(w, rest);
    assert(t.take(w.len() as int) =~= w);
    assert(t.skip(w.len() as int) =~= rest);
    lemma_trim_gap(gap, Seq::empty());
    assert(gap + Seq::<char>::empty() =~= gap);
    reveal_strlit(" ");
    assert(" "@ =~= seq![' ']);
}

} // verus!
