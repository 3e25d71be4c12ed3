//! Integers written in decimal.
use vstd::prelude::*;

verus! {

/// The character of one decimal digit.
pub open spec fn digit(d: nat) -> char {
    (('0' as u32 + d) as u32) as char
}

/// A natural number in decimal, without leading zeros.
pub open spec fn dec(n: nat) -> Seq<char>
    decreases n,
{
    if n < 10 {
        seq![digit(n)]
    } else {
        dec(n / 10).push(digit(n % 10))
    }
}

/// An integer in decimal, with a leading `-` if it is negative.
pub open spec fn dec_int(n: int) -> Seq<char> {
    if n < 0 {
        seq!['-'] + dec((-n) as nat)
    } else {
        dec(n as nat)
    }
}

fn digit_char(d: u64) -> (c: char)
    requires
        d < 10,
    ensures
        c == digit(d as nat),
{
    ((48 + d) as u8) as char
}

pub fn dec_u64(n: u64) -> (r: String)
    ensures
        r@ == dec(n as nat),
    decreases n,
{
    if n < 10 {
        let mut s = String::new();
        s.push(digit_char(n));
        proof {
            assert(Seq::<char>::empty().push(digit(n as nat)) =~= seq![digit(n as nat)]);
        }
        s
    } else {
        let mut s = dec_u64(n / 10);
        s.push(digit_char(n % 10));
        s
    }
}

pub fn dec_usize(n: usize) -> (r: String)
    ensures
        r@ == dec(n as nat),
{
    dec_u64(n as u64)
}

pub fn dec_i64(n: i64) -> (r: String)
    ensures
        r@ == dec_int(n as int),
{
    if n < 0 {
        let m: u64 = (-(n + 1)) as u64 + 1;
        let digits = dec_u64(m);
        let mut s = String::new();
        s.push('-');
        s.append(digits.as_str());
        proof {
            assert(Seq::<char>::empty().push('-') =~= seq!['-']);
        }
        s
    } else {
        dec_u64(n as u64)
    }
}

/// The text, with spaces before it up to `w` characters.
pub open spec fn pad_left(s: Seq<char>, fill: char, w: nat) -> Seq<char> {
    if s.len() < w {
        Seq::new((w - s.len()) as nat, |i: int| fill) + s
    } else {
        s
    }
}

pub fn padded(s: &str, fill: char, w: usize) -> (r: String)
    ensures
        r@ == pad_left(s@, fill, w as nat),
{
    let n = s.unicode_len();
    let mut out = String::new();
    let mut i: usize = n;
    while i < w
        invariant
            n == s@.len(),
            n <= i,
            i <= w || i == n,
            out@ == Seq::new((i - n) as nat, |k: int| fill),
        decreases w - i,
    {
        out.push(fill);
        i = i + 1;
        proof {
            assert(out@ =~= Seq::new((i - n) as nat, |k: int| fill));
        }
    }
    out.append(s);
    proof {
        if n >= w {
            assert(out@ =~= s@);
        }
    }
    out
}

// ---- reading ------------------------------------------------------------------------

pub open spec fn is_digit(c: char) -> bool {
    '0' <= c <= '9'
}

pub open spec fn all_digits(s: Seq<char>) -> bool {
    forall|i: int| 0 <= i < s.len() ==> is_digit(#[trigger] s[i])
}

/// The value of a sequence of decimal digits.
pub open spec fn digits_value(s: Seq<char>) -> nat
    decreases s.len(),
{
    if s.len() == 0 {
        0
    } else {
        10 * digits_value(s.drop_last()) + (s.last() as u32 - '0' as u32) as nat
    }
}

/// What an `i64` reads from a text: an optional sign, then one digit or more, with a
/// value that fits.
pub open spec fn int_value(s: Seq<char>) -> Option<int> {
    let signed = s.len() > 0 && (s[0] == '-' || s[0] == '+');
    let body = if signed {
        s.skip(1)
    } else {
        s
    };
    if body.len() == 0 || !all_digits(body) {
        None
    } else {
        let v = if s[0] == '-' {
            -(digits_value(body) as int)
        } else {
            digits_value(body) as int
        };
        if i64::MIN <= v <= i64::MAX {
            Some(v)
        } else {
            None
        }
    }
}

pub fn parse_int(v: &Vec<char>) -> (r: Option<i64>)
    ensures
        match r {
            Some(n) => int_value(v@) == Some(n as int),
            None => int_value(v@) is None,
        },
{
    let n = v.len();
    let signed = n > 0 && (v[0] == '-' || v[0] == '+');
    let start: usize = if signed {
        1
    } else {
        0
    };
    let ghost body = if signed {
        v@.skip(1)
    } else {
        v@
    };
    if start == n {
        return None;
    }
    let negative = v[0] == '-';
    let mut acc: u128 = 0;
    let mut i: usize = start;
    proof {
        assert(body.take(0) =~= Seq::<char>::empty());
    }
    while i < n
        invariant
            n == v@.len(),
            start <= i <= n,
            start <= 1,
            body == (if start == 1 {
                v@.skip(1)
            } else {
                v@
            }),
            body.len() == n - start,
            all_digits(body.take(i - start)),
            acc <= 0x1_0000_0000_0000_0000,
            acc < 0x1_0000_0000_0000_0000 ==> acc == digits_value(body.take(i - start)),
            acc == 0x1_0000_0000_0000_0000 ==> digits_value(body.take(i - start))
                >= 0x1_0000_0000_0000_0000,
            signed == (n > 0 && (v@[0] == '-' || v@[0] == '+')),
            start == (if signed {
                1int
            } else {
                0
            }),
        decreases n - i,
    {
        let c = v[i];
        let ghost k = i - start;
        proof {
            assert(body.take(k + 1).drop_last() =~= body.take(k));
            assert(body[k] == v@[i as int]);
        }
        if !('0' <= c && c <= '9') {
            proof {
                assert(!is_digit(body[k]));
            }
            return None;
        }
        let d: u128 = (c as u32 - '0' as u32) as u128;
        let next: u128 = acc * 10 + d;
        acc = if next >= 0x1_0000_0000_0000_0000 {
            0x1_0000_0000_0000_0000
        } else {
            next
        };
        i = i + 1;
        proof {
            assert(body.take(k + 1)[k] == c);
            assert forall|j: int| 0 <= j < k + 1 implies is_digit(#[trigger] body.take(k + 1)[j]) by {
                if j < k {
                    assert(body.take(k)[j] == body.take(k + 1)[j]);
                }
            }
        }
    }
    proof {
        assert(body.take(body.len() as int) =~= body);
    }
    if negative {
        if acc > 0x8000_0000_0000_0000 {
            None
        } else if acc == 0x8000_0000_0000_0000 {
            Some(i64::MIN)
        } else {
            Some(-(acc as i64))
        }
    } else if acc > 0x7fff_ffff_ffff_ffff {
        None
    } else {
        Some(acc as i64)
    }
}

// ---- laws -----------------------------------------------------------------------------

/// What is written reads back: the digits of a number, and nothing else, without a leading zero
/// but in zero itself.
pub proof fn law_written_numbers_read_back(n: nat)
    ensures
        digits_value(dec(n)) == n,
        all_digits(dec(n)),
        n > 0 ==> dec(n)[0] != '0',
        dec_int(n as int) == dec(n),
        n > 0 ==> dec_int(-n) == seq!['-'] + dec(n),
    decreases n,
{
    if n < 10 {
        lemma_digit(n);
        assert(dec(n).drop_last() =~= Seq::<char>::empty());
        assert(digits_value(Seq::<char>::empty()) == 0);
        assert(digits_value(dec(n)) == 10 * digits_value(dec(n).drop_last()) + n);
    } else {
        law_written_numbers_read_back(n / 10);
        lemma_digit(n % 10);
        assert(dec(n).drop_last() =~= dec(n / 10));
        assert(dec(n / 10).len() > 0);
        assert(dec(n)[0] == dec(n / 10)[0]);
        assert forall|i: int| 0 <= i < dec(n).len() implies is_digit(#[trigger] dec(n)[i]) by {
            if i < dec(n / 10).len() {
                assert(is_digit(dec(n / 10)[i]));
            }
        }
    }
}

proof fn lemma_digit(d: nat)
    requires
        d < 10,
    ensures
        digit(d) as u32 == '0' as u32 + d,
        is_digit(digit(d)),
        d > 0 ==> digit(d) != '0',
{
}

/// Padding keeps the text at the end and fills up to the width in front of it.
pub proof fn law_padding(s: Seq<char>, fill: char, w: nat)
    ensures
        pad_left(s, fill, w).len() == (if s.len() < w {
            w
        } else {
            s.len()
        }),
        pad_left(s, fill, w).skip(pad_left(s, fill, w).len() - s.len()) == s,
        forall|i: int|
            0 <= i < pad_left(s, fill, w).len() - s.len() ==> #[trigger] pad_left(s, fill, w)[i]
                == fill,
{
    let p = pad_left(s, fill, w);
    assert(p.skip(p.len() - s.len()) =~= s);
}

/// An integer is read with or without a sign, up to the largest that fits; anything else is none.
pub proof fn law_integers_are_read(n: nat, s: Seq<char>, i: int)
    ensures
        n <= i64::MAX ==> int_value(dec(n)) == Some(n as int),
        n <= i64::MAX ==> int_value(seq!['+'] + dec(n)) == Some(n as int),
        n <= i64::MAX + 1 ==> int_value(seq!['-'] + dec(n)) == Some(-(n as int)),
        n > i64::MAX ==> int_value(dec(n)) is None && int_value(seq!['+'] + dec(n)) is None,
        n > i64::MAX + 1 ==> int_value(seq!['-'] + dec(n)) is None,
        int_value(Seq::empty()) is None,
        int_value(seq!['-']) is None,
        int_value(seq!['+']) is None,
        0 < i < s.len() && !('0' <= s[i] <= '9') ==> int_value(s) is None,
        s.len() > 0 && !('0' <= s[0] <= '9') && s[0] != '-' && s[0] != '+' ==> int_value(s) is None,
{
    law_written_numbers_read_back(n);
    let d = dec(n);
    assert(is_digit(d[0]));
    assert((seq!['+'] + d).skip(1) =~= d);
    assert((seq!['-'] + d).skip(1) =~= d);
    if 0 < i < s.len() && !('0' <= s[i] <= '9') {
        assert(s.skip(1)[i - 1] == s[i]);
        assert(!is_digit(s[i]));
    }
}

} // verus!
