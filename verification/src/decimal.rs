//! Unsigned decimal numbers as ASCII text: reading and writing.

use vstd::prelude::*;
use crate::ascii::{PLUS, ZERO};

verus! {

/// One of the ten ASCII digits.
pub open spec fn is_digit(b: u8) -> bool {
    0x30 <= b && b <= 0x39
}

/// Every byte of `s` is a digit.
pub open spec fn all_digits(s: Seq<u8>) -> bool {
    forall|i: int| 0 <= i < s.len() ==> is_digit(#[trigger] s[i])
}

/// The number that a run of digits denotes in base ten; the empty run
/// denotes zero.
pub open spec fn digits_value(s: Seq<u8>) -> nat
    decreases s.len(),
{
    if s.len() == 0 {
        0
    } else {
        digits_value(s.drop_last()) * 10 + (s.last() - ZERO) as nat
    }
}

/// `s` without the plus sign that may stand at its start.
pub open spec fn unsigned_part(s: Seq<u8>) -> Seq<u8> {
    if s.len() > 0 && s[0] == PLUS {
        s.skip(1)
    } else {
        s
    }
}

/// The number that `s` denotes, if it is a number no greater than `limit`:
/// an optional plus sign, then one digit or more, and nothing else.
pub open spec fn number_value(s: Seq<u8>, limit: nat) -> Option<nat> {
    let digits = unsigned_part(s);
    if digits.len() > 0 && all_digits(digits) && digits_value(digits) <= limit {
        Some(digits_value(digits))
    } else {
        None
    }
}

/// The shortest run of digits that denotes `n`.
pub open spec fn decimal(n: nat) -> Seq<u8>
    decreases n,
{
    if n < 10 {
        seq![(ZERO + n) as u8]
    } else {
        decimal(n / 10).push((ZERO + n % 10) as u8)
    }
}

/// A run of digits denotes no less than any of its prefixes.
pub proof fn lemma_digits_value_prefix(s: Seq<u8>, k: int)
    requires
        0 <= k <= s.len(),
    ensures
        digits_value(s.take(k)) <= digits_value(s),
    decreases s.len(),
{
    if k == s.len() {
        assert(s.take(k) =~= s);
    } else {
        lemma_digits_value_prefix(s.drop_last(), k);
        assert(s.drop_last().take(k) =~= s.take(k));
    }
}

/// Reads `s` as a number no greater than `limit`.
pub fn parse_number(s: &[u8], limit: usize) -> (r: Option<usize>)
    ensures
        match r {
            Some(v) => number_value(s@, limit as nat) == Some(v as nat),
            None => number_value(s@, limit as nat).is_none(),
        },
{
    let len: usize = s.len();
    let start: usize = if len > 0 && s[0] == PLUS {
        1
    } else {
        0
    };
    let ghost digits = unsigned_part(s@);
    assert(digits == s@.skip(start as int));
    if start == len {
        return None;
    }
    let mut value: usize = 0;
    let mut i: usize = start;
    while i < len
        invariant
            len == s@.len(),
            start <= i <= len,
            digits == s@.skip(start as int),
            digits == unsigned_part(s@),
            all_digits(digits.take(i - start)),
            value == digits_value(digits.take(i - start)),
            value <= limit,
        decreases len - i,
    {
        let b: u8 = s[i];
        let ghost next = digits.take(i - start + 1);
        proof {
            assert(next.drop_last() =~= digits.take(i - start));
            assert(next.last() == b);
            lemma_digits_value_prefix(digits, i - start + 1);
        }
        if b < 0x30 || b > 0x39 {
            assert(!is_digit(digits[i - start]));
            return None;
        }
        let d: usize = (b - ZERO) as usize;
        if d > limit || value > (limit - d) / 10 {
            assert(digits_value(next) > limit);
            return None;
        }
        value = value * 10 + d;
        i += 1;
        proof {
            assert forall|j: int| 0 <= j < next.len() implies is_digit(#[trigger] next[j]) by {
                if j < next.len() - 1 {
                    assert(next[j] == digits.take(i - start - 1)[j]);
                }
            }
        }
    }
    assert(digits.take(i - start) =~= digits);
    Some(value)
}

/// Appends to `out` the shortest run of digits that denotes `n`.
pub fn push_decimal(out: &mut Vec<u8>, n: usize)
    ensures
        final(out)@ == old(out)@ + decimal(n as nat),
    decreases n,
{
    if n >= 10 {
        push_decimal(out, n / 10);
    }
    let d: u8 = (n % 10) as u8;
    out.push(ZERO + d);
    proof {
        if n < 10 {
            assert(old(out)@.push((ZERO + d) as u8) =~= old(out)@ + decimal(n as nat));
        } else {
            assert((old(out)@ + decimal((n / 10) as nat)).push((ZERO + d) as u8) =~= old(out)@
                + decimal(n as nat));
        }
    }
}

} // verus!
