//! Decimal integer parsing as `str::parse::<i64>()` and `str::parse::<u32>()` do it.

use vstd::prelude::*;

verus! {

/// An ASCII decimal digit.
pub open spec fn is_digit(c: char) -> bool {
    '0' <= c && c <= '9'
}

/// Every character is an ASCII decimal digit.
pub open spec fn all_digits(d: Seq<char>) -> bool {
    forall|k: int| 0 <= k < d.len() ==> is_digit(#[trigger] d[k])
}

/// The value of a string of decimal digits.
pub open spec fn digits_value(d: Seq<char>) -> int
    decreases d.len(),
{
    if d.len() == 0 {
        0
    } else {
        digits_value(d.drop_last()) * 10 + ((d.last() as u32) - ('0' as u32))
    }
}

/// The sign and digit part of an integer literal: a leading `+` or `-` is a sign.
pub open spec fn split_sign(s: Seq<char>) -> (bool, Seq<char>) {
    if s.len() > 0 && s[0] == '-' {
        (true, s.skip(1))
    } else if s.len() > 0 && s[0] == '+' {
        (false, s.skip(1))
    } else {
        (false, s)
    }
}

/// `str::parse::<i64>()`: an optional sign, then one or more ASCII digits, in range.
pub open spec fn parse_i64_spec(s: Seq<char>) -> Option<i64> {
    let (neg, d) = split_sign(s);
    let v = if neg { -digits_value(d) } else { digits_value(d) };
    if d.len() == 0 || !all_digits(d) || v < i64::MIN || v > i64::MAX {
        None
    } else {
        Some(v as i64)
    }
}

/// `str::parse::<u32>()`: an optional `+`, then one or more ASCII digits, in range.
pub open spec fn parse_u32_spec(s: Seq<char>) -> Option<u32> {
    let (neg, d) = split_sign(s);
    let v = digits_value(d);
    if neg || d.len() == 0 || !all_digits(d) || v > u32::MAX {
        None
    } else {
        Some(v as u32)
    }
}

proof fn lemma_digits_value_nonneg(d: Seq<char>)
    requires
        all_digits(d),
    ensures
        digits_value(d) >= 0,
    decreases d.len(),
{
    if d.len() > 0 {
        assert(is_digit(d[d.len() - 1]));
        lemma_digits_value_nonneg(d.drop_last());
    }
}

/// Whether `d` is all digits, and the value of `d` capped at `cap`.
fn digits_capped(d: &[char], start: usize, cap: u128) -> (r: (bool, u128))
    requires
        start <= d@.len(),
        cap < 0x1000_0000_0000_0000_0000u128,
    ensures
        r.0 == all_digits(d@.skip(start as int)),
        r.0 ==> r.1 == (if digits_value(d@.skip(start as int)) < cap {
            digits_value(d@.skip(start as int))
        } else {
            cap as int
        }),
{
    let ghost t = d@.skip(start as int);
    let mut k = start;
    let mut acc: u128 = 0;
    while k < d.len()
        invariant
            start <= k <= d@.len(),
            cap < 0x1000_0000_0000_0000_0000u128,
            t == d@.skip(start as int),
            all_digits(t.take(k - start)),
            acc <= cap,
            acc == (if digits_value(t.take(k - start)) < cap {
                digits_value(t.take(k - start))
            } else {
                cap as int
            }),
        decreases d@.len() - k,
    {
        let c = d[k];
        if !('0' <= c && c <= '9') {
            assert(t[k - start] == c);
            assert(!all_digits(t));
            return (false, 0);
        }
        let ghost prev = t.take(k - start);
        let ghost next = t.take(k - start + 1);
        assert(next.drop_last() =~= prev);
        assert(next.last() == c);
        proof {
            lemma_digits_value_nonneg(prev);
        }
        let dv: u128 = (c as u32 - '0' as u32) as u128;
        let candidate: u128 = acc * 10 + dv;
        acc = if candidate < cap { candidate } else { cap };
        assert(all_digits(next)) by {
            assert forall|l: int| 0 <= l < next.len() implies is_digit(#[trigger] next[l]) by {
                if l < prev.len() {
                    assert(next[l] == prev[l]);
                }
            }
        }
        k = k + 1;
    }
    assert(t.take(k - start) =~= t);
    (true, acc)
}

/// `str::parse::<i64>()` on characters.
pub fn parse_i64(s: &[char]) -> (r: Option<i64>)
    ensures
        r == parse_i64_spec(s@),
{
    let (neg, start): (bool, usize) = if s.len() > 0 && s[0] == '-' {
        (true, 1)
    } else if s.len() > 0 && s[0] == '+' {
        (false, 1)
    } else {
        (false, 0)
    };
    assert(split_sign(s@) == (neg, s@.skip(start as int)));
    if start == s.len() {
        return None;
    }
    let cap: u128 = 0x8000_0000_0000_0001u128;
    let (ok, mag) = digits_capped(s, start, cap);
    if !ok {
        return None;
    }
    proof {
        lemma_digits_value_nonneg(s@.skip(start as int));
    }
    if neg {
        if mag > 0x8000_0000_0000_0000u128 {
            None
        } else if mag == 0x8000_0000_0000_0000u128 {
            Some(i64::MIN)
        } else {
            Some(-(mag as i64))
        }
    } else {
        if mag > 0x7fff_ffff_ffff_ffffu128 {
            None
        } else {
            Some(mag as i64)
        }
    }
}

/// `str::parse::<u32>()` on characters.
pub fn parse_u32(s: &[char]) -> (r: Option<u32>)
    ensures
        r == parse_u32_spec(s@),
{
    let (neg, start): (bool, usize) = if s.len() > 0 && s[0] == '-' {
        (true, 1)
    } else if s.len() > 0 && s[0] == '+' {
        (false, 1)
    } else {
        (false, 0)
    };
    assert(split_sign(s@) == (neg, s@.skip(start as int)));
    if neg || start == s.len() {
        return None;
    }
    let cap: u128 = 0x1_0000_0000u128;
    let (ok, v) = digits_capped(s, start, cap);
    if !ok || v > 0xffff_ffffu128 {
        None
    } else {
        Some(v as u32)
    }
}

} // verus!
