//! Reading bytes of text: where a byte first occurs, and decimal numbers.

use vstd::prelude::*;
use vstd::slice::slice_subrange;

verus! {

pub const HASH: u8 = 35;

pub const PLUS: u8 = 43;

pub const DASH: u8 = 45;

pub const DOT: u8 = 46;

pub const SLASH: u8 = 47;

pub const ZERO: u8 = 48;

pub const COLON: u8 = 58;

pub const BAR: u8 = 124;

/// `i` is the first place in `s` that holds the byte `c`.
pub open spec fn is_first(s: Seq<u8>, c: u8, i: int) -> bool {
    &&& 0 <= i < s.len()
    &&& s[i] == c
    &&& forall|j: int| 0 <= j < i ==> s[j] != c
}

/// The first place in `s` that holds the byte `c`, where there is one.
pub open spec fn first(s: Seq<u8>, c: u8) -> int {
    choose|i: int| is_first(s, c, i)
}

/// A byte has one first place at most.
pub proof fn first_is_unique(s: Seq<u8>, c: u8, i: int)
    requires
        is_first(s, c, i),
    ensures
        first(s, c) == i,
        s.contains(c),
{
    let j = first(s, c);
    assert(is_first(s, c, j));
    if j < i {
        assert(s[j] != c);
    }
    if i < j {
        assert(s[i] != c);
    }
}

/// The first place in `s` that holds the byte `c`.
pub fn find(s: &[u8], c: u8) -> (r: Option<usize>)
    ensures
        match r {
            Some(i) => is_first(s@, c, i as int) && first(s@, c) == i && s@.contains(c),
            None => !s@.contains(c),
        },
{
    let mut i: usize = 0;
    while i < s.len()
        invariant
            0 <= i <= s@.len(),
            forall|j: int| 0 <= j < i ==> s@[j] != c,
        decreases s@.len() - i,
    {
        if s[i] == c {
            proof {
                first_is_unique(s@, c, i as int);
            }
            return Some(i);
        }
        i += 1;
    }
    None
}

/// The part of `s` before the place `at`, and the part after it.
pub fn split_around(s: &[u8], at: usize) -> (r: (&[u8], &[u8]))
    requires
        at < s@.len(),
    ensures
        r.0@ == s@.take(at as int),
        r.1@ == s@.skip(at + 1),
{
    let n = s.len();
    let a = slice_subrange(s, 0, at);
    let b = slice_subrange(s, at + 1, n);
    (a, b)
}

/// Whether the byte is a decimal digit.
pub open spec fn is_digit(b: u8) -> bool {
    48 <= b <= 57
}

/// Whether every byte of `s` is a decimal digit.
pub open spec fn all_digits(s: Seq<u8>) -> bool {
    forall|i: int| 0 <= i < s.len() ==> is_digit(#[trigger] s[i])
}

/// The number that the decimal digits of `s` write.
pub open spec fn digits_value(s: Seq<u8>) -> nat
    decreases s.len(),
{
    if s.len() == 0 {
        0
    } else {
        digits_value(s.drop_last()) * 10 + (s.last() - 48) as nat
    }
}

/// The number that `s` writes in decimal: one digit or more, with any number
/// of leading zeros, after an optional plus sign.
pub open spec fn number_text(s: Seq<u8>) -> Option<nat> {
    let d = if s.len() > 0 && s[0] == PLUS {
        s.skip(1)
    } else {
        s
    };
    if d.len() > 0 && all_digits(d) {
        Some(digits_value(d))
    } else {
        None
    }
}

/// The digits of a number, cut short, do not write a greater number.
pub proof fn digits_value_grows(s: Seq<u8>, i: int)
    requires
        0 <= i <= s.len(),
        all_digits(s),
    ensures
        digits_value(s.take(i)) <= digits_value(s),
    decreases s.len(),
{
    if i == s.len() {
        assert(s.take(i) =~= s);
    } else {
        let t = s.drop_last();
        assert(t.take(i) =~= s.take(i));
        assert(is_digit(s[s.len() - 1]));
        assert forall|j: int| 0 <= j < t.len() implies is_digit(#[trigger] t[j]) by {
            assert(t[j] == s[j]);
        }
        digits_value_grows(t, i);
    }
}

/// Reads a decimal number that is at most `max`.
pub fn parse_number(s: &[u8], max: u32) -> (r: Option<u32>)
    ensures
        r == match number_text(s@) {
            Some(v) => if v <= max {
                Some(v as u32)
            } else {
                None
            },
            None => None,
        },
{
    let d = if s.len() > 0 && s[0] == PLUS {
        slice_subrange(s, 1, s.len())
    } else {
        s
    };
    if d.len() == 0 {
        return None;
    }
    let mut acc: u64 = 0;
    let mut i: usize = 0;
    while i < d.len()
        invariant
            0 <= i <= d@.len(),
            d@.len() > 0,
            number_text(s@) == if all_digits(d@) {
                Some(digits_value(d@))
            } else {
                None
            },
            all_digits(d@.take(i as int)),
            acc == digits_value(d@.take(i as int)),
            acc <= max,
        decreases d@.len() - i,
    {
        let b = d[i];
        if b < 48 || b > 57 {
            assert(!is_digit(d@[i as int]));
            return None;
        }
        proof {
            assert(d@.take(i + 1).drop_last() =~= d@.take(i as int));
            assert forall|j: int| 0 <= j < i + 1 implies is_digit(#[trigger] d@.take(i + 1)[j]) by {
                if j < i {
                    assert(d@.take(i + 1)[j] == d@.take(i as int)[j]);
                }
            }
        }
        acc = acc * 10 + (b - 48) as u64;
        i += 1;
        if acc > max as u64 {
            proof {
                if all_digits(d@) {
                    digits_value_grows(d@, i as int);
                }
            }
            return None;
        }
    }
    proof {
        assert(d@.take(i as int) =~= d@);
    }
    Some(acc as u32)
}


/// `s` cut in two at the first byte `c`, which goes to neither part.
pub open spec fn cut(s: Seq<u8>, c: u8) -> Option<(Seq<u8>, Seq<u8>)> {
    if s.contains(c) {
        Some((s.take(first(s, c)), s.skip(first(s, c) + 1)))
    } else {
        None
    }
}

/// Cuts `s` in two at the first byte `c`.
pub fn split_first(s: &[u8], c: u8) -> (r: Option<(&[u8], &[u8])>)
    ensures
        match r {
            Some(parts) => cut(s@, c) == Some((parts.0@, parts.1@)),
            None => cut(s@, c).is_none(),
        },
{
    match find(s, c) {
        Some(i) => Some(split_around(s, i)),
        None => None,
    }
}

} // verus!
