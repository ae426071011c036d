use crate::lexer::is_digit;
use crate::model::Text;
use vstd::prelude::*;

verus! {

/// The value of a decimal digit.
pub open spec fn digit_value(c: char) -> nat {
    (c as u32 - '0' as u32) as nat
}

/// The number that the decimal digits of `s` from `from` to `to` write.
pub open spec fn digits_value(s: Text, from: int, to: int) -> nat
    decreases to - from,
{
    if from >= to {
        0
    } else {
        digits_value(s, from, to - 1) * 10 + digit_value(s[to - 1])
    }
}

/// All characters of `s` from `from` to `to` are decimal digits.
pub open spec fn all_digits(s: Text, from: int, to: int) -> bool {
    forall|i: int| from <= i < to ==> is_digit(#[trigger] s[i])
}

/// How many characters of `s` from `from` to `to` are `.`.
pub open spec fn dots(s: Text, from: int, to: int) -> nat
    decreases to - from,
{
    if from >= to {
        0
    } else {
        dots(s, from, to - 1) + if s[to - 1] == '.' {
            1nat
        } else {
            0nat
        }
    }
}

/// Where the digits start: after a leading `-`, if there is one.
pub open spec fn after_sign(s: Text, p: int, e: int) -> int {
    if p < e && s[p] == '-' {
        p + 1
    } else {
        p
    }
}

/// The integer that `s` writes from `p` to `e`: an optional `-` and one or more decimal
/// digits, of a value that an `i64` holds.
pub open spec fn int_literal(s: Text, p: int, e: int) -> Option<i64> {
    let b = after_sign(s, p, e);
    let magnitude = digits_value(s, b, e) as int;
    let value = if b > p {
        -magnitude
    } else {
        magnitude
    };
    if b < e && all_digits(s, b, e) && i64::MIN <= value <= i64::MAX {
        Some(value as i64)
    } else {
        None
    }
}

/// `s` writes a decimal fraction from `p` to `e`: an optional `-`, then digits with at
/// most one `.` among them, and at least one digit.
pub open spec fn float_literal(s: Text, p: int, e: int) -> bool {
    let b = after_sign(s, p, e);
    &&& forall|i: int| b <= i < e ==> is_digit(#[trigger] s[i]) || s[i] == '.'
    &&& dots(s, b, e) <= 1
    &&& dots(s, b, e) < e - b
}

/// Digits appended to a number do not make it smaller.
pub proof fn lemma_digits_grow(s: Text, from: int, mid: int, to: int)
    requires
        from <= mid <= to,
    ensures
        digits_value(s, from, mid) <= digits_value(s, from, to),
    decreases to - mid,
{
    if mid < to {
        lemma_digits_grow(s, from, mid, to - 1);
    }
}

/// There are no more dots than characters, and not fewer in a longer stretch.
pub proof fn lemma_dots_grow(s: Text, from: int, mid: int, to: int)
    requires
        from <= mid <= to,
    ensures
        dots(s, from, mid) <= dots(s, from, to),
        dots(s, from, to) <= to - from,
    decreases to - from,
{
    if from < to {
        if mid < to {
            lemma_dots_grow(s, from, mid, to - 1);
        } else {
            lemma_dots_grow(s, from, to - 1, to - 1);
        }
    }
}

/// Reads the integer that `src` writes from `p` to `e`.
pub(crate) fn read_int(src: &[char], p: usize, e: usize) -> (r: Option<i64>)
    requires
        p <= e <= src@.len(),
    ensures
        r == int_literal(src@, p as int, e as int),
{
    let negative = p < e && src[p] == '-';
    let b: usize = if negative {
        p + 1
    } else {
        p
    };
    if b >= e {
        return None;
    }
    let limit: u64 = if negative {
        9223372036854775808u64
    } else {
        9223372036854775807u64
    };
    let mut acc: u64 = 0;
    let mut i: usize = b;
    while i < e
        invariant
            p <= b <= i <= e <= src@.len(),
            b == after_sign(src@, p as int, e as int),
            negative == (b > p),
            limit == if negative {
                9223372036854775808u64
            } else {
                9223372036854775807u64
            },
            all_digits(src@, b as int, i as int),
            acc == digits_value(src@, b as int, i as int),
            acc <= limit,
        decreases e - i,
    {
        let c = src[i];
        if !('0' <= c && c <= '9') {
            assert(!is_digit(src@[i as int]));
            return None;
        }
        let d: u64 = (c as u32 - '0' as u32) as u64;
        assert(d <= 9 && d == digit_value(c));
        if acc > (limit - d) / 10 {
            proof {
                assert(digits_value(src@, b as int, i + 1) > limit);
                lemma_digits_grow(src@, b as int, i + 1, e as int);
            }
            return None;
        }
        acc = acc * 10 + d;
        i += 1;
    }
    if negative {
        if acc == 9223372036854775808u64 {
            Some(i64::MIN)
        } else {
            Some(0 - (acc as i64))
        }
    } else {
        Some(acc as i64)
    }
}

/// Tells whether `src` writes a decimal fraction from `p` to `e`.
pub(crate) fn reads_as_float(src: &[char], p: usize, e: usize) -> (r: bool)
    requires
        p <= e <= src@.len(),
    ensures
        r == float_literal(src@, p as int, e as int),
{
    let b: usize = if p < e && src[p] == '-' {
        p + 1
    } else {
        p
    };
    let mut seen_dot = false;
    let mut i: usize = b;
    while i < e
        invariant
            p <= b <= i <= e <= src@.len(),
            b == after_sign(src@, p as int, e as int),
            forall|j: int| b <= j < i ==> is_digit(#[trigger] src@[j]) || src@[j] == '.',
            dots(src@, b as int, i as int) == if seen_dot {
                1nat
            } else {
                0nat
            },
        decreases e - i,
    {
        let c = src[i];
        if c == '.' {
            if seen_dot {
                proof {
                    assert(dots(src@, b as int, i + 1) == 2);
                    lemma_dots_grow(src@, b as int, i + 1, e as int);
                }
                return false;
            }
            seen_dot = true;
        } else if !('0' <= c && c <= '9') {
            assert(!is_digit(src@[i as int]) && src@[i as int] != '.');
            return false;
        }
        i += 1;
    }
    if seen_dot {
        e - b > 1
    } else {
        e - b > 0
    }
}

} // verus!
