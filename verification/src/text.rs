//! Text as sequences of characters.
//!
//! Specifications speak of a string through its view, a `Seq<char>`. Lengths that the
//! application measures in bytes are `byte_len`, the length of the UTF-8 encoding.
use vstd::prelude::*;

verus! {

// ---- trusted items of std ----------------------------------------------------

/// `String::push`: appends one character to the end of the string.
pub assume_specification[ String::push ](s: &mut String, c: char)
    ensures
        final(s)@ == old(s)@.push(c),
;

/// What `str::to_lowercase` returns for a text.
pub uninterp spec fn lowercase(s: Seq<char>) -> Seq<char>;

/// Calls `str::to_lowercase`. The result is a function of the text alone, and on ASCII
/// text it maps `A`..`Z` to `a`..`z` and keeps every other character.
#[verifier::external_body]
pub(crate) fn to_lowercase(s: &str) -> (r: String)
    ensures
        r@ == lowercase(s@),
        vstd::utf8::is_ascii_chars(s@) ==> r@ == ascii_lower(s@),
{
    s.to_lowercase()
}

pub open spec fn ascii_lower_char(c: char) -> char {
    if 'A' <= c <= 'Z' {
        ((c as u32 + 32) as u32) as char
    } else {
        c
    }
}

pub open spec fn ascii_lower(s: Seq<char>) -> Seq<char> {
    s.map_values(|c: char| ascii_lower_char(c))
}

// ---- bytes -------------------------------------------------------------------

/// How many bytes a character takes in UTF-8.
pub open spec fn width(c: char) -> nat {
    if c as u32 <= 0x7f {
        1
    } else if c as u32 <= 0x7ff {
        2
    } else if c as u32 <= 0xffff {
        3
    } else {
        4
    }
}

/// How many bytes a text takes in UTF-8: what `str::len` reports.
pub open spec fn byte_len(s: Seq<char>) -> nat
    decreases s.len(),
{
    if s.len() == 0 {
        0
    } else {
        byte_len(s.drop_last()) + width(s.last())
    }
}

pub proof fn lemma_byte_len_push(s: Seq<char>, c: char)
    ensures
        byte_len(s.push(c)) == byte_len(s) + width(c),
{
    assert(s.push(c).drop_last() =~= s);
}

pub proof fn lemma_byte_len_add(a: Seq<char>, b: Seq<char>)
    ensures
        byte_len(a + b) == byte_len(a) + byte_len(b),
    decreases b.len(),
{
    if b.len() == 0 {
        assert(a + b =~= a);
    } else {
        assert((a + b).drop_last() =~= a + b.drop_last());
        lemma_byte_len_add(a, b.drop_last());
    }
}

/// A longer prefix has more bytes.
pub proof fn lemma_byte_len_take_strict(s: Seq<char>, i: int, j: int)
    requires
        0 <= i < j <= s.len(),
    ensures
        byte_len(s.take(i)) < byte_len(s.take(j)),
    decreases j,
{
    assert(s.take(j).drop_last() =~= s.take(j - 1));
    if i < j - 1 {
        lemma_byte_len_take_strict(s, i, j - 1);
    }
}

pub proof fn lemma_byte_len_bounds(s: Seq<char>)
    ensures
        s.len() <= byte_len(s) <= 4 * s.len(),
    decreases s.len(),
{
    if s.len() > 0 {
        lemma_byte_len_bounds(s.drop_last());
    }
}

proof fn lemma_encode_len(s: Seq<char>)
    ensures
        vstd::utf8::encode_utf8(s).len() == byte_len(s),
    decreases s.len(),
{
    if s.len() > 0 {
        lemma_encode_len(s.drop_first());
        assert(seq![s[0]] + s.drop_first() =~= s);
        lemma_byte_len_add(seq![s[0]], s.drop_first());
        lemma_byte_len_push(Seq::<char>::empty(), s[0]);
        assert(Seq::<char>::empty().push(s[0]) =~= seq![s[0]]);
        vstd::utf8::char_is_scalar(s[0]);
        assert(vstd::utf8::encode_scalar(s[0] as u32).len() == width(s[0]));
    }
}

/// The byte length of a string.
pub fn str_bytes(s: &str) -> (n: usize)
    ensures
        n == byte_len(s@),
{
    proof {
        lemma_encode_len(s@);
    }
    s.as_bytes().len()
}

/// The largest number of leading characters that take at most `n` bytes.
pub open spec fn chars_within(s: Seq<char>, n: nat) -> nat
    decreases s.len(),
{
    if byte_len(s) <= n {
        s.len()
    } else {
        chars_within(s.drop_last(), n)
    }
}

/// Byte offset `n` falls between two characters of `s`, or at one of its ends.
pub open spec fn is_boundary(s: Seq<char>, n: nat) -> bool {
    n <= byte_len(s) && byte_len(s.take(chars_within(s, n) as int)) == n
}

pub proof fn lemma_chars_within(s: Seq<char>, n: nat)
    ensures
        chars_within(s, n) <= s.len(),
        byte_len(s.take(chars_within(s, n) as int)) <= n,
        chars_within(s, n) < s.len() ==> byte_len(s.take(chars_within(s, n) as int + 1)) > n,
    decreases s.len(),
{
    if byte_len(s) <= n {
        assert(s.take(s.len() as int) =~= s);
    } else {
        let t = s.drop_last();
        lemma_chars_within(t, n);
        let k = chars_within(t, n) as int;
        assert(s.take(k) =~= t.take(k));
        if k < t.len() {
            assert(s.take(k + 1) =~= t.take(k + 1));
        } else {
            assert(s.take(k + 1) =~= s);
        }
    }
}

/// The number of characters within `n` bytes is the one whose prefix fits and whose
/// successor does not.
pub proof fn lemma_chars_within_is(s: Seq<char>, n: nat, k: int)
    requires
        0 <= k <= s.len(),
        byte_len(s.take(k)) <= n,
        k < s.len() ==> byte_len(s.take(k + 1)) > n,
    ensures
        chars_within(s, n) == k,
{
    lemma_chars_within(s, n);
    let m = chars_within(s, n) as int;
    if m < k {
        if m + 1 < k {
            lemma_byte_len_take_strict(s, m + 1, k);
        }
    } else if k < m {
        if k + 1 < m {
            lemma_byte_len_take_strict(s, k + 1, m);
        }
    }
}

fn char_width(c: char) -> (n: usize)
    ensures
        n == width(c),
{
    let u = c as u32;
    if u <= 0x7f {
        1
    } else if u <= 0x7ff {
        2
    } else if u <= 0xffff {
        3
    } else {
        4
    }
}

/// Counts the leading characters of `v` that take at most `n` bytes.
pub fn count_within(v: &Vec<char>, n: usize) -> (k: usize)
    ensures
        k == chars_within(v@, n as nat),
        k <= v@.len(),
{
    let mut k: usize = 0;
    let mut used: usize = 0;
    proof {
        assert(v@.take(0) =~= Seq::<char>::empty());
    }
    while k < v.len()
        invariant
            k <= v@.len(),
            used == byte_len(v@.take(k as int)),
            used <= n,
        decreases v.len() - k,
    {
        let w: usize = char_width(v[k]);
        proof {
            assert(v@.take(k as int + 1).drop_last() =~= v@.take(k as int));
        }
        if w > n - used {
            proof {
                lemma_chars_within_is(v@, n as nat, k as int);
            }
            return k;
        }
        used = used + w;
        k = k + 1;
    }
    proof {
        lemma_chars_within_is(v@, n as nat, k as int);
    }
    k
}

// ---- strings and character vectors --------------------------------------------

/// The views of a list of strings.
pub open spec fn texts(v: Seq<String>) -> Seq<Seq<char>> {
    v.map_values(|s: String| s@)
}

pub fn to_chars(s: &str) -> (r: Vec<char>)
    ensures
        r@ == s@,
{
    let mut out: Vec<char> = Vec::new();
    for c in it: s.chars()
        invariant
            out@ == it.seq().take(it.index() as int),
            it.seq() == s@,
    {
        out.push(c);
    }
    out
}

/// The string made of the characters `lo..hi`.
pub fn substring(v: &Vec<char>, lo: usize, hi: usize) -> (r: String)
    requires
        lo <= hi <= v@.len(),
    ensures
        r@ == v@.subrange(lo as int, hi as int),
{
    let mut s = String::new();
    let mut i: usize = lo;
    while i < hi
        invariant
            lo <= i <= hi <= v@.len(),
            s@ == v@.subrange(lo as int, i as int),
        decreases hi - i,
    {
        s.push(v[i]);
        i = i + 1;
        proof {
            assert(v@.subrange(lo as int, i as int - 1).push(v@[i as int - 1]) =~= v@.subrange(
                lo as int,
                i as int,
            ));
        }
    }
    s
}

pub fn from_chars(v: &Vec<char>) -> (r: String)
    ensures
        r@ == v@,
{
    let r = substring(v, 0, v.len());
    proof {
        assert(v@.subrange(0, v@.len() as int) =~= v@);
    }
    r
}

/// A copy of a string.
pub fn copy(s: &str) -> (r: String)
    ensures
        r@ == s@,
{
    s.to_owned()
}

/// `a` followed by `b`.
pub fn cat(a: &str, b: &str) -> (r: String)
    ensures
        r@ == a@ + b@,
{
    let mut s = a.to_owned();
    s.append(b);
    s
}

pub fn str_eq(a: &str, b: &str) -> (r: bool)
    ensures
        r == (a@ == b@),
{
    let x = a.as_bytes();
    let y = b.as_bytes();
    proof {
        vstd::utf8::encode_utf8_decode_utf8(a@);
        vstd::utf8::encode_utf8_decode_utf8(b@);
    }
    if x.len() != y.len() {
        return false;
    }
    let mut i: usize = 0;
    while i < x.len()
        invariant
            i <= x@.len(),
            x@.len() == y@.len(),
            x@ == vstd::utf8::encode_utf8(a@),
            y@ == vstd::utf8::encode_utf8(b@),
            forall|j: int| 0 <= j < i ==> x@[j] == y@[j],
        decreases x.len() - i,
    {
        if x[i] != y[i] {
            return false;
        }
        i = i + 1;
    }
    proof {
        assert(x@ =~= y@);
    }
    true
}

// ---- searching -----------------------------------------------------------------

/// Splits a text at byte `n`; fails when that is past its end or inside a character.
pub fn split_bytes(s: &str, n: usize) -> (r: Option<(String, String)>)
    ensures
        match r {
            Some((a, b)) => is_boundary(s@, n as nat) && a@ == s@.take(
                chars_within(s@, n as nat) as int,
            ) && b@ == s@.skip(chars_within(s@, n as nat) as int),
            None => !is_boundary(s@, n as nat),
        },
{
    let v = to_chars(s);
    let k = count_within(&v, n);
    let a = substring(&v, 0, k);
    let b = substring(&v, k, v.len());
    proof {
        assert(a@ =~= s@.take(k as int));
        assert(b@ =~= s@.skip(k as int));
        assert(s@ =~= a@ + b@);
        lemma_byte_len_add(a@, b@);
    }
    if str_bytes(a.as_str()) == n {
        Some((a, b))
    } else {
        None
    }
}

/// `t` occurs in `s` at position `i`.
pub open spec fn occurs_at(s: Seq<char>, t: Seq<char>, i: int) -> bool {
    0 <= i && i + t.len() <= s.len() && s.subrange(i, i + t.len()) == t
}

/// The first position at or after `from` where `t` occurs in `s`.
pub open spec fn find_from(s: Seq<char>, t: Seq<char>, from: int) -> Option<int>
    decreases s.len() - from + 1,
{
    if from < 0 || from + t.len() > s.len() {
        None
    } else if occurs_at(s, t, from) {
        Some(from)
    } else {
        find_from(s, t, from + 1)
    }
}

/// The first position where `t` occurs in `s`.
pub open spec fn find(s: Seq<char>, t: Seq<char>) -> Option<int> {
    find_from(s, t, 0)
}

pub open spec fn contains(s: Seq<char>, t: Seq<char>) -> bool {
    exists|i: int| occurs_at(s, t, i)
}

pub proof fn lemma_find_from(s: Seq<char>, t: Seq<char>, from: int)
    requires
        0 <= from,
    ensures
        match find_from(s, t, from) {
            Some(i) => from <= i && i + t.len() <= s.len() && occurs_at(s, t, i) && (forall|j: int|
                from <= j < i ==> !occurs_at(s, t, j)),
            None => forall|j: int| from <= j ==> !occurs_at(s, t, j),
        },
    decreases s.len() - from + 1,
{
    if from + t.len() > s.len() {
    } else if occurs_at(s, t, from) {
    } else {
        lemma_find_from(s, t, from + 1);
    }
}

/// A position is the first occurrence when `t` occurs there and nowhere between.
pub proof fn lemma_find_is(s: Seq<char>, t: Seq<char>, from: int, i: int)
    requires
        0 <= from <= i,
        occurs_at(s, t, i),
        forall|j: int| from <= j < i ==> !occurs_at(s, t, j),
    ensures
        find_from(s, t, from) == Some(i),
{
    lemma_find_from(s, t, from);
    if let Some(k) = find_from(s, t, from) {
        if k < i {
            assert(!occurs_at(s, t, k));
        }
    } else {
        assert(!occurs_at(s, t, i));
    }
}

pub proof fn lemma_contains_find(s: Seq<char>, t: Seq<char>)
    ensures
        contains(s, t) == (find(s, t) is Some),
{
    lemma_find_from(s, t, 0);
    if contains(s, t) {
        let i = choose|i: int| occurs_at(s, t, i);
        if find(s, t) is None {
            assert(!occurs_at(s, t, i));
        }
    } else if let Some(i) = find(s, t) {
        assert(occurs_at(s, t, i));
    }
}

pub fn matches_at(s: &Vec<char>, t: &Vec<char>, i: usize) -> (r: bool)
    ensures
        r == occurs_at(s@, t@, i as int),
{
    if i > s.len() || t.len() > s.len() - i {
        return false;
    }
    let n = s.len();
    let mut k: usize = 0;
    while k < t.len()
        invariant
            k <= t@.len(),
            n == s@.len(),
            i + t@.len() <= n,
            forall|j: int| 0 <= j < k ==> s@[i + j] == t@[j],
        decreases t.len() - k,
    {
        if s[i + k] != t[k] {
            proof {
                assert(s@.subrange(i as int, i + t@.len())[k as int] != t@[k as int]);
            }
            return false;
        }
        k = k + 1;
    }
    proof {
        assert(s@.subrange(i as int, i + t@.len()) =~= t@);
    }
    true
}

pub fn find_chars(s: &Vec<char>, t: &Vec<char>, from: usize) -> (r: Option<usize>)
    ensures
        match r {
            Some(i) => find_from(s@, t@, from as int) == Some(i as int) && from <= i && i
                + t@.len() <= s@.len(),
            None => find_from(s@, t@, from as int) is None,
        },
{
    let mut i: usize = from;
    loop
        invariant
            from <= i,
            find_from(s@, t@, from as int) == find_from(s@, t@, i as int),
        decreases s@.len() + 1 - i,
    {
        if i > s.len() || t.len() > s.len() - i {
            return None;
        }
        if matches_at(s, t, i) {
            return Some(i);
        }
        proof {
            if t@.len() == 0 {
                assert(s@.subrange(i as int, i as int) =~= t@);
            }
        }
        i = i + 1;
    }
}

pub fn str_contains(s: &str, t: &str) -> (r: bool)
    ensures
        r == contains(s@, t@),
{
    let v = to_chars(s);
    let w = to_chars(t);
    proof {
        lemma_contains_find(s@, t@);
    }
    find_chars(&v, &w, 0).is_some()
}

pub open spec fn starts_with(s: Seq<char>, t: Seq<char>) -> bool {
    occurs_at(s, t, 0)
}

pub open spec fn ends_with(s: Seq<char>, t: Seq<char>) -> bool {
    occurs_at(s, t, s.len() - t.len())
}

pub fn str_starts_with(s: &str, t: &str) -> (r: bool)
    ensures
        r == starts_with(s@, t@),
{
    matches_at(&to_chars(s), &to_chars(t), 0)
}

pub fn str_ends_with(s: &str, t: &str) -> (r: bool)
    ensures
        r == ends_with(s@, t@),
{
    let v = to_chars(s);
    let w = to_chars(t);
    if w.len() > v.len() {
        return false;
    }
    let i: usize = v.len() - w.len();
    matches_at(&v, &w, i)
}

// ---- whitespace ------------------------------------------------------------------

/// The characters with the Unicode property `White_Space`.
pub open spec fn is_space(c: char) -> bool {
    ||| '\u{9}' <= c <= '\u{d}'
    ||| c == ' '
    ||| c == '\u{85}'
    ||| c == '\u{a0}'
    ||| c == '\u{1680}'
    ||| '\u{2000}' <= c <= '\u{200a}'
    ||| c == '\u{2028}'
    ||| c == '\u{2029}'
    ||| c == '\u{202f}'
    ||| c == '\u{205f}'
    ||| c == '\u{3000}'
}

pub fn is_whitespace(c: char) -> (r: bool)
    ensures
        r == is_space(c),
{
    ('\u{9}' <= c && c <= '\u{d}') || c == ' ' || c == '\u{85}' || c == '\u{a0}' || c == '\u{1680}'
        || ('\u{2000}' <= c && c <= '\u{200a}') || c == '\u{2028}' || c == '\u{2029}' || c
        == '\u{202f}' || c == '\u{205f}' || c == '\u{3000}'
}

pub open spec fn trim_start(s: Seq<char>) -> Seq<char>
    decreases s.len(),
{
    if s.len() > 0 && is_space(s[0]) {
        trim_start(s.drop_first())
    } else {
        s
    }
}

pub open spec fn trim_end(s: Seq<char>) -> Seq<char>
    decreases s.len(),
{
    if s.len() > 0 && is_space(s.last()) {
        trim_end(s.drop_last())
    } else {
        s
    }
}

/// The text without leading and trailing whitespace.
pub open spec fn trim(s: Seq<char>) -> Seq<char> {
    trim_end(trim_start(s))
}

/// Trims the characters `lo..hi` of `v`, and returns the bounds that are left.
pub fn trim_range(v: &Vec<char>, lo: usize, hi: usize) -> (r: (usize, usize))
    requires
        lo <= hi <= v@.len(),
    ensures
        lo <= r.0 <= r.1 <= hi,
        v@.subrange(r.0 as int, r.1 as int) == trim(v@.subrange(lo as int, hi as int)),
{
    let ghost s = v@.subrange(lo as int, hi as int);
    let mut a: usize = lo;
    while a < hi && is_whitespace(v[a])
        invariant
            lo <= a <= hi <= v@.len(),
            trim_start(v@.subrange(a as int, hi as int)) == trim_start(s),
        decreases hi - a,
    {
        proof {
            assert(v@.subrange(a as int, hi as int).drop_first() =~= v@.subrange(
                a as int + 1,
                hi as int,
            ));
        }
        a = a + 1;
    }
    let ghost t = v@.subrange(a as int, hi as int);
    assert(trim_start(s) == t);
    let mut b: usize = hi;
    while a < b && is_whitespace(v[b - 1])
        invariant
            a <= b <= hi <= v@.len(),
            trim_end(v@.subrange(a as int, b as int)) == trim_end(t),
        decreases b - a,
    {
        proof {
            assert(v@.subrange(a as int, b as int).drop_last() =~= v@.subrange(
                a as int,
                b as int - 1,
            ));
        }
        b = b - 1;
    }
    (a, b)
}

pub fn str_trim(s: &str) -> (r: String)
    ensures
        r@ == trim(s@),
{
    let v = to_chars(s);
    let b = trim_range(&v, 0, v.len());
    proof {
        assert(v@.subrange(0, v@.len() as int) =~= v@);
    }
    substring(&v, b.0, b.1)
}

/// The text is empty or whitespace alone.
pub open spec fn is_blank(s: Seq<char>) -> bool {
    trim(s).len() == 0
}

pub fn str_is_blank(s: &str) -> (r: bool)
    ensures
        r == is_blank(s@),
{
    let v = to_chars(s);
    let b = trim_range(&v, 0, v.len());
    proof {
        assert(v@.subrange(0, v@.len() as int) =~= v@);
    }
    b.0 == b.1
}

// ---- lines -----------------------------------------------------------------------

/// How many characters stand before the first `c`, or in the whole text if it has none.
pub open spec fn until(s: Seq<char>, c: char) -> nat
    decreases s.len(),
{
    if s.len() == 0 || s[0] == c {
        0
    } else {
        1 + until(s.drop_first(), c)
    }
}

pub open spec fn strip_cr(s: Seq<char>) -> Seq<char> {
    if s.len() > 0 && s.last() == '\r' {
        s.drop_last()
    } else {
        s
    }
}

/// The lines of a text: each ends in `\n` or `\r\n`, which is not part of it, and the
/// ending of the last one is optional.
pub open spec fn lines(s: Seq<char>) -> Seq<Seq<char>>
    decreases s.len(),
{
    if s.len() == 0 {
        seq![]
    } else {
        let k = until(s, '\n');
        if k >= s.len() {
            seq![s]
        } else {
            seq![strip_cr(s.take(k as int))] + lines(s.skip(k as int + 1))
        }
    }
}

pub fn until_char(v: &Vec<char>, c: char, from: usize) -> (r: usize)
    requires
        from <= v@.len(),
    ensures
        from <= r <= v@.len(),
        r == from + until(v@.skip(from as int), c),
        r < v@.len() ==> v@[r as int] == c,
        forall|j: int| from <= j < r ==> v@[j] != c,
{
    let mut i: usize = from;
    while i < v.len() && v[i] != c
        invariant
            from <= i <= v@.len(),
            from + until(v@.skip(from as int), c) == i + until(v@.skip(i as int), c),
            forall|j: int| from <= j < i ==> v@[j] != c,
        decreases v.len() - i,
    {
        proof {
            assert(v@.skip(i as int).drop_first() =~= v@.skip(i as int + 1));
        }
        i = i + 1;
    }
    i
}

pub proof fn lemma_until(s: Seq<char>, c: char)
    ensures
        until(s, c) <= s.len(),
        until(s, c) < s.len() ==> s[until(s, c) as int] == c,
        forall|j: int| 0 <= j < until(s, c) ==> s[j] != c,
    decreases s.len(),
{
    if s.len() > 0 && s[0] != c {
        lemma_until(s.drop_first(), c);
        assert forall|j: int| 0 <= j < until(s, c) implies s[j] != c by {
            if j > 0 {
                assert(s.drop_first()[j - 1] == s[j]);
            }
        }
    }
}

pub fn str_lines(s: &str) -> (r: Vec<String>)
    ensures
        texts(r@) == lines(s@),
{
    let v = to_chars(s);
    let mut out: Vec<String> = Vec::new();
    let mut i: usize = 0;
    proof {
        assert(v@.skip(0) =~= v@);
        assert(texts(out@) + lines(v@) =~= lines(v@));
    }
    while i < v.len()
        invariant
            i <= v@.len(),
            v@ == s@,
            texts(out@) + lines(v@.skip(i as int)) == lines(v@),
        decreases v.len() - i,
    {
        let j = until_char(&v, '\n', i);
        let ghost rest = v@.skip(i as int);
        if j == v.len() {
            let line = substring(&v, i, j);
            proof {
                assert(line@ =~= rest);
                assert(lines(rest) =~= seq![rest]);
                assert(texts(out@.push(line)) =~= texts(out@).push(line@));
                assert(texts(out@) + seq![rest] =~= texts(out@).push(rest));
            }
            out.push(line);
            return out;
        }
        let end: usize = if j > i && v[j - 1] == '\r' {
            j - 1
        } else {
            j
        };
        let line = substring(&v, i, end);
        proof {
            let k = (j - i) as int;
            assert(rest.take(k) =~= v@.subrange(i as int, j as int));
            if j > i && v@[j - 1] == '\r' {
                assert(rest.take(k).drop_last() =~= v@.subrange(i as int, end as int));
            }
            assert(line@ == strip_cr(rest.take(k)));
            assert(rest.skip(k + 1) =~= v@.skip(j as int + 1));
            assert(texts(out@.push(line)) =~= texts(out@).push(line@));
            assert(texts(out@) + lines(rest) =~= texts(out@).push(line@) + lines(
                v@.skip(j as int + 1),
            ));
        }
        out.push(line);
        i = j + 1;
    }
    proof {
        assert(v@.skip(i as int) =~= Seq::<char>::empty());
        assert(texts(out@) + lines(v@.skip(i as int)) =~= texts(out@));
    }
    out
}

// ---- joining ---------------------------------------------------------------------

/// The parts in order, with `sep` between each two.
pub open spec fn join(parts: Seq<Seq<char>>, sep: Seq<char>) -> Seq<char>
    decreases parts.len(),
{
    if parts.len() == 0 {
        seq![]
    } else if parts.len() == 1 {
        parts[0]
    } else {
        join(parts.drop_last(), sep) + sep + parts.last()
    }
}

/// Joins the strings `lo..hi`.
pub fn join_range(parts: &Vec<String>, lo: usize, hi: usize, sep: &str) -> (r: String)
    requires
        lo <= hi <= parts@.len(),
    ensures
        r@ == join(texts(parts@).subrange(lo as int, hi as int), sep@),
{
    let mut s = String::new();
    let mut i: usize = lo;
    let ghost t = texts(parts@);
    while i < hi
        invariant
            lo <= i <= hi <= parts@.len(),
            t == texts(parts@),
            s@ == join(t.subrange(lo as int, i as int), sep@),
        decreases hi - i,
    {
        proof {
            let next = t.subrange(lo as int, i as int + 1);
            assert(next.drop_last() =~= t.subrange(lo as int, i as int));
            assert(next.last() == parts@[i as int]@);
        }
        if i > lo {
            s.append(sep);
        }
        s.append(parts[i].as_str());
        i = i + 1;
    }
    s
}

pub fn join_strings(parts: &Vec<String>, sep: &str) -> (r: String)
    ensures
        r@ == join(texts(parts@), sep@),
{
    let r = join_range(parts, 0, parts.len(), sep);
    proof {
        assert(texts(parts@).subrange(0, parts@.len() as int) =~= texts(parts@));
    }
    r
}

// ---- laws -----------------------------------------------------------------------

pub open spec fn all_spaces(s: Seq<char>) -> bool {
    forall|i: int| 0 <= i < s.len() ==> is_space(#[trigger] s[i])
}

proof fn lemma_trim_start_is(s: Seq<char>) -> (k: int)
    ensures
        0 <= k <= s.len(),
        trim_start(s) == s.skip(k),
        all_spaces(s.take(k)),
        k < s.len() ==> !is_space(s[k]),
    decreases s.len(),
{
    if s.len() > 0 && is_space(s[0]) {
        let j = lemma_trim_start_is(s.drop_first());
        let k = j + 1;
        assert(s.drop_first().skip(j) =~= s.skip(k));
        assert forall|i: int| 0 <= i < s.take(k).len() implies is_space(#[trigger] s.take(k)[i]) by {
            if i > 0 {
                assert(s.take(k)[i] == s.drop_first().take(j)[i - 1]);
            }
        }
        k
    } else {
        assert(s.skip(0) =~= s);
        0
    }
}

proof fn lemma_trim_end_is(s: Seq<char>) -> (k: int)
    ensures
        0 <= k <= s.len(),
        trim_end(s) == s.take(k),
        all_spaces(s.skip(k)),
        k > 0 ==> !is_space(s[k - 1]),
    decreases s.len(),
{
    if s.len() > 0 && is_space(s.last()) {
        let k = lemma_trim_end_is(s.drop_last());
        assert(s.drop_last().take(k) =~= s.take(k));
        assert forall|i: int| 0 <= i < s.skip(k).len() implies is_space(#[trigger] s.skip(k)[i]) by {
            if i < s.len() - 1 - k {
                assert(s.skip(k)[i] == s.drop_last().skip(k)[i]);
            }
        }
        k
    } else {
        assert(s.take(s.len() as int) =~= s);
        s.len() as int
    }
}

/// Trimming takes whitespace from both ends, all of it, and nothing else; a text is blank when it
/// holds nothing but whitespace.
pub proof fn law_trim(s: Seq<char>)
    ensures
        exists|a: Seq<char>, b: Seq<char>|
            s == #[trigger] (a + trim(s) + b) && all_spaces(a) && all_spaces(b),
        trim(s).len() > 0 ==> !is_space(trim(s)[0]) && !is_space(trim(s).last()),
        is_blank(s) <==> all_spaces(s),
{
    let k = lemma_trim_start_is(s);
    let t = s.skip(k);
    let e = lemma_trim_end_is(t);
    let a = s.take(k);
    let b = t.skip(e);
    assert(s =~= a + trim(s) + b);
    if trim(s).len() > 0 {
        assert(trim(s)[0] == s[k]);
        assert(trim(s).last() == t[e - 1]);
    } else {
        assert(s =~= a + b);
        assert forall|i: int| 0 <= i < s.len() implies is_space(#[trigger] s[i]) by {
            if i < a.len() {
                assert(s[i] == a[i]);
            } else {
                assert(s[i] == b[i - a.len()]);
            }
        }
    }
    if all_spaces(s) && trim(s).len() > 0 {
        assert(trim(s)[0] == s[k]);
        assert(is_space(s[k]));
    }
}

/// A text without a line end in it.
pub open spec fn unbroken(s: Seq<char>) -> bool {
    forall|i: int| 0 <= i < s.len() ==> #[trigger] s[i] != '\n'
}

pub proof fn lemma_until_break(line: Seq<char>, rest: Seq<char>)
    requires
        unbroken(line),
    ensures
        until(line + seq!['\n'] + rest, '\n') == line.len(),
        until(line, '\n') == line.len(),
    decreases line.len(),
{
    let all = line + seq!['\n'] + rest;
    if line.len() == 0 {
        assert(all[0] == '\n');
    } else {
        assert(all[0] == line[0]);
        assert(line[0] != '\n');
        let tail = line.drop_first();
        assert forall|i: int| 0 <= i < tail.len() implies #[trigger] tail[i] != '\n' by {
            assert(line[i + 1] != '\n');
        }
        lemma_until_break(tail, rest);
        assert(all.drop_first() =~= tail + seq!['\n'] + rest);
    }
}

/// The lines of a text: a line ends at the first line end, with at most one carriage return before
/// it taken off, and the rest has its own lines; what is left at the end is a line, as it is, unless
/// it is empty.
pub proof fn law_lines(line: Seq<char>, rest: Seq<char>)
    requires
        unbroken(line),
    ensures
        line.len() == 0 || line.last() != '\r' ==> lines(line + seq!['\n'] + rest) == seq![line]
            + lines(rest),
        lines(line + seq!['\r', '\n'] + rest) == seq![line] + lines(rest),
        line.len() > 0 ==> lines(line) == seq![line],
        lines(Seq::<char>::empty()) == Seq::<Seq<char>>::empty(),
{
    lemma_until_break(line, rest);
    let a = line + seq!['\n'] + rest;
    assert(a.take(line.len() as int) =~= line);
    assert(a.skip(line.len() as int + 1) =~= rest);
    let cr = line.push('\r');
    assert forall|i: int| 0 <= i < cr.len() implies #[trigger] cr[i] != '\n' by {
        if i < line.len() {
            assert(line[i] != '\n');
        }
    }
    lemma_until_break(cr, rest);
    let b = line + seq!['\r', '\n'] + rest;
    assert(b =~= cr + seq!['\n'] + rest);
    assert(b.take(cr.len() as int) =~= cr);
    assert(cr.drop_last() =~= line);
    assert(b.skip(cr.len() as int + 1) =~= rest);
}

/// Joining two lists of parts is joining each, with the separator between; a single part is
/// itself.
pub proof fn law_join(a: Seq<Seq<char>>, b: Seq<Seq<char>>, sep: Seq<char>)
    ensures
        a.len() > 0 && b.len() > 0 ==> join(a + b, sep) == join(a, sep) + sep + join(b, sep),
        a.len() == 1 ==> join(a, sep) == a[0],
        a.len() == 0 ==> join(a, sep) == Seq::<char>::empty(),
    decreases b.len(),
{
    if a.len() > 0 && b.len() > 0 {
        let t = a + b;
        assert(t.drop_last() =~= a + b.drop_last());
        assert(t.last() == b.last());
        if b.len() == 1 {
            assert(a + b.drop_last() =~= a);
        } else {
            law_join(a, b.drop_last(), sep);
            assert(join(t, sep) =~= join(a, sep) + sep + join(b, sep));
        }
    }
}

/// Every part is in what is joined.
pub proof fn law_join_keeps(parts: Seq<Seq<char>>, sep: Seq<char>, i: int)
    requires
        0 <= i < parts.len(),
    ensures
        contains(join(parts, sep), parts[i]),
{
    let a = parts.take(i);
    let one = seq![parts[i]];
    let b = parts.skip(i + 1);
    assert(parts =~= (a + one) + b);
    law_join(a, one, sep);
    law_join(one, b, sep);
    law_join(a + one, b, sep);
    assert(a.len() == 0 ==> a + one =~= one);
    assert(b.len() == 0 ==> (a + one) + b =~= a + one);
    let head = if a.len() > 0 {
        join(a, sep) + sep
    } else {
        Seq::empty()
    };
    let tail = if b.len() > 0 {
        sep + join(b, sep)
    } else {
        Seq::empty()
    };
    let whole = join(parts, sep);
    assert(join(one, sep) == parts[i]);
    assert(whole =~= head + parts[i] + tail);
    let p = head.len() as int;
    assert(whole.subrange(p, p + parts[i].len()) =~= parts[i]);
    assert(occurs_at(whole, parts[i], p));
}

/// What it means to begin with, to end with and to hold a text.
pub proof fn law_parts(a: Seq<char>, b: Seq<char>, c: Seq<char>)
    ensures
        starts_with(a + b, a),
        ends_with(a + b, b),
        contains(a + b + c, b),
{
    assert((a + b).subrange(0, a.len() as int) =~= a);
    assert((a + b).subrange((a + b).len() - b.len(), (a + b).len() as int) =~= b);
    let w = a + b + c;
    assert(w.subrange(a.len() as int, (a.len() + b.len()) as int) =~= b);
    assert(occurs_at(w, b, a.len() as int));
}

/// What begins with, ends with or holds a text is that text with something around it.
pub proof fn law_whole_of_parts(s: Seq<char>, t: Seq<char>, i: int)
    ensures
        starts_with(s, t) ==> s == t + s.skip(t.len() as int),
        ends_with(s, t) ==> s == s.take(s.len() - t.len()) + t,
        occurs_at(s, t, i) ==> s == s.take(i) + t + s.skip(i + t.len()),
        contains(s, t) ==> exists|k: int| #[trigger] occurs_at(s, t, k),
{
    if starts_with(s, t) {
        assert(s =~= t + s.skip(t.len() as int));
    }
    if ends_with(s, t) {
        assert(s =~= s.take(s.len() - t.len()) + t);
    }
    if occurs_at(s, t, i) {
        assert(s =~= s.take(i) + t + s.skip(i + t.len()));
    }
}

/// The bytes of a text: one for a character of ASCII, up to four for any other, and the bytes of
/// two texts behind each other are those of both.
pub proof fn law_bytes(a: Seq<char>, b: Seq<char>, c: char)
    ensures
        byte_len(a + b) == byte_len(a) + byte_len(b),
        byte_len(Seq::empty()) == 0,
        (c as u32) < 0x80 ==> byte_len(seq![c]) == 1,
        0x80 <= (c as u32) < 0x800 ==> byte_len(seq![c]) == 2,
        0x800 <= (c as u32) < 0x10000 ==> byte_len(seq![c]) == 3,
        0x10000 <= (c as u32) ==> byte_len(seq![c]) == 4,
{
    lemma_byte_len_add(a, b);
    assert(seq![c] =~= Seq::<char>::empty().push(c));
    lemma_byte_len_push(Seq::empty(), c);
}

/// Lowering changes the capitals of ASCII and nothing else.
pub proof fn law_ascii_lower(s: Seq<char>, i: int)
    requires
        0 <= i < s.len(),
    ensures
        ascii_lower(s).len() == s.len(),
        'A' <= s[i] <= 'Z' ==> ascii_lower(s)[i] as u32 == s[i] as u32 + 32,
        !('A' <= s[i] <= 'Z') ==> ascii_lower(s)[i] == s[i],
{
}

/// The first place of a text is the least at which it stands.
pub proof fn law_find(s: Seq<char>, t: Seq<char>, i: int)
    ensures
        find(s, t) == Some(i) <==> 0 <= i && occurs_at(s, t, i) && forall|j: int|
            0 <= j < i ==> !#[trigger] occurs_at(s, t, j),
        find(s, t) is None <==> !contains(s, t),
{
    lemma_find_from(s, t, 0);
    lemma_contains_find(s, t);
    if 0 <= i && occurs_at(s, t, i) && (forall|j: int|
        0 <= j < i ==> !#[trigger] occurs_at(s, t, j)) {
        lemma_find_is(s, t, 0, i);
    }
}

/// A byte offset falls between two characters exactly where some beginning of the text takes that
/// many bytes.
pub proof fn law_boundaries(a: Seq<char>, b: Seq<char>, n: nat)
    ensures
        is_boundary(a + b, byte_len(a)),
        is_boundary(a, n) ==> exists|x: Seq<char>, y: Seq<char>|
            a == #[trigger] (x + y) && byte_len(x) == n,
{
    let s = a + b;
    assert(s.take(a.len() as int) =~= a);
    lemma_byte_len_add(a, b);
    if b.len() > 0 {
        lemma_byte_len_take_strict(s, a.len() as int, a.len() as int + 1);
    }
    lemma_chars_within_is(s, byte_len(a), a.len() as int);
    if is_boundary(a, n) {
        lemma_chars_within(a, n);
        let k = chars_within(a, n) as int;
        assert(a =~= a.take(k) + a.skip(k));
    }
}

} // verus!
