//! Byte-level text helpers: character classes, trimming, tokens and
//! decimal numbers over ASCII.

use vstd::prelude::*;

verus! {

/// The line feed, which ends a line.
pub const LF: u8 = 0x0a;

/// The colon, which ends the name of a header.
pub const COLON: u8 = 0x3a;

/// The plus sign, which may stand before a number.
pub const PLUS: u8 = 0x2b;

/// The digit zero.
pub const ZERO: u8 = 0x30;

/// The ASCII white space: space, tab, line feed, vertical tab, form feed and
/// carriage return.
pub open spec fn is_space(b: u8) -> bool {
    b == 0x20 || (0x09 <= b && b <= 0x0d)
}

/// Whether `b` is white space.
pub fn space(b: u8) -> (r: bool)
    ensures
        r == is_space(b),
{
    b == 0x20 || (0x09 <= b && b <= 0x0d)
}

/// Every byte of `s` is white space; so is the empty text.
pub open spec fn is_blank(s: Seq<u8>) -> bool {
    forall|i: int| 0 <= i < s.len() ==> is_space(#[trigger] s[i])
}

/// The lower-case form of an ASCII letter; any other byte is unchanged.
pub open spec fn lower(b: u8) -> u8 {
    if 0x41 <= b && b <= 0x5a {
        (b + 0x20) as u8
    } else {
        b
    }
}

/// The lower-case form of `b`.
pub fn to_lower(b: u8) -> (r: u8)
    ensures
        r == lower(b),
{
    if 0x41 <= b && b <= 0x5a {
        b + 0x20
    } else {
        b
    }
}

/// Equality of two texts up to the case of ASCII letters.
pub open spec fn same_ignoring_case(a: Seq<u8>, b: Seq<u8>) -> bool {
    a.len() == b.len() && forall|i: int| 0 <= i < a.len() ==> lower(#[trigger] a[i]) == lower(b[i])
}

/// Whether `a` and `b` are equal up to the case of ASCII letters.
pub fn eq_ignoring_case(a: &[u8], b: &[u8]) -> (r: bool)
    ensures
        r == same_ignoring_case(a@, b@),
{
    if a.len() != b.len() {
        return false;
    }
    let mut i: usize = 0;
    while i < a.len()
        invariant
            a@.len() == b@.len(),
            i <= a@.len(),
            forall|j: int| 0 <= j < i ==> lower(#[trigger] a@[j]) == lower(b@[j]),
        decreases a@.len() - i,
    {
        if to_lower(a[i]) != to_lower(b[i]) {
            return false;
        }
        i += 1;
    }
    true
}


/// The number of bytes at the start of `s` that come before the first
/// occurrence of `stop`: all of `s` when `stop` does not occur.
pub open spec fn run_len(s: Seq<u8>, stop: u8) -> nat
    decreases s.len(),
{
    if s.len() == 0 || s[0] == stop {
        0
    } else {
        1 + run_len(s.drop_first(), stop)
    }
}

/// The number of white-space bytes at the start of `s`.
pub open spec fn leading_spaces(s: Seq<u8>) -> nat
    decreases s.len(),
{
    if s.len() > 0 && is_space(s[0]) {
        1 + leading_spaces(s.drop_first())
    } else {
        0
    }
}

/// The number of white-space bytes at the end of `s`.
pub open spec fn trailing_spaces(s: Seq<u8>) -> nat
    decreases s.len(),
{
    if s.len() > 0 && is_space(s.last()) {
        1 + trailing_spaces(s.drop_last())
    } else {
        0
    }
}

/// The number of bytes at the start of `s` that are not white space.
pub open spec fn token_len(s: Seq<u8>) -> nat
    decreases s.len(),
{
    if s.len() > 0 && !is_space(s[0]) {
        1 + token_len(s.drop_first())
    } else {
        0
    }
}

/// `s` without the white space at its start.
pub open spec fn trim_start(s: Seq<u8>) -> Seq<u8> {
    s.skip(leading_spaces(s) as int)
}

/// `s` without the white space at its end.
pub open spec fn trim_end(s: Seq<u8>) -> Seq<u8> {
    s.take(s.len() - trailing_spaces(s))
}

/// `s` without the white space at both ends.
pub open spec fn trimmed(s: Seq<u8>) -> Seq<u8> {
    trim_end(trim_start(s))
}

/// A run ends at the first occurrence of `stop`, or with the text.
pub proof fn lemma_run_len_bound(s: Seq<u8>, stop: u8)
    ensures
        run_len(s, stop) <= s.len(),
        run_len(s, stop) < s.len() ==> s[run_len(s, stop) as int] == stop,
        forall|i: int| 0 <= i < run_len(s, stop) ==> #[trigger] s[i] != stop,
    decreases s.len(),
{
    if s.len() == 0 || s[0] == stop {
    } else {
        let t = s.drop_first();
        lemma_run_len_bound(t, stop);
        assert forall|i: int| 0 <= i < run_len(s, stop) implies #[trigger] s[i] != stop by {
            if i > 0 {
                assert(s[i] == t[i - 1]);
            }
        }
    }
}

/// The length of the run of bytes other than `stop` that starts at `from`.
pub fn run_length(s: &[u8], from: usize, stop: u8) -> (n: usize)
    requires
        from <= s@.len(),
    ensures
        n == run_len(s@.skip(from as int), stop),
        from + n <= s@.len(),
{
    let len: usize = s.len();
    let mut n: usize = 0;
    while from + n < len && s[from + n] != stop
        invariant
            len == s@.len(),
            from + n <= len,
            run_len(s@.skip(from as int), stop) == n + run_len(s@.skip(from + n), stop),
        decreases s@.len() - n,
    {
        proof {
            assert(s@.skip(from + n).drop_first() =~= s@.skip(from + n + 1));
        }
        n += 1;
    }
    n
}

/// The number of white-space bytes from `from` on, up to the first byte
/// that is none.
pub fn spaces_length(s: &[u8], from: usize) -> (n: usize)
    requires
        from <= s@.len(),
    ensures
        n == leading_spaces(s@.skip(from as int)),
        from + n <= s@.len(),
{
    let len: usize = s.len();
    let mut n: usize = 0;
    while from + n < len && space(s[from + n])
        invariant
            len == s@.len(),
            from + n <= len,
            leading_spaces(s@.skip(from as int)) == n + leading_spaces(s@.skip(from + n)),
        decreases s@.len() - n,
    {
        proof {
            assert(s@.skip(from + n).drop_first() =~= s@.skip(from + n + 1));
        }
        n += 1;
    }
    n
}

/// The length of the run of bytes other than white space that starts at
/// `from`.
pub fn token_length(s: &[u8], from: usize) -> (n: usize)
    requires
        from <= s@.len(),
    ensures
        n == token_len(s@.skip(from as int)),
        from + n <= s@.len(),
{
    let len: usize = s.len();
    let mut n: usize = 0;
    while from + n < len && !space(s[from + n])
        invariant
            len == s@.len(),
            from + n <= len,
            token_len(s@.skip(from as int)) == n + token_len(s@.skip(from + n)),
        decreases s@.len() - n,
    {
        proof {
            assert(s@.skip(from + n).drop_first() =~= s@.skip(from + n + 1));
        }
        n += 1;
    }
    n
}

/// `s` without the white space at both ends.
pub fn trim(s: &[u8]) -> (r: &[u8])
    ensures
        r@ == trimmed(s@),
{
    let a: usize = spaces_length(s, 0);
    assert(s@.skip(0) =~= s@);
    let ghost t = s@.skip(a as int);
    let mut b: usize = s.len();
    while b > a && space(s[b - 1])
        invariant
            a <= b <= s@.len(),
            t == s@.skip(a as int),
            trailing_spaces(t) == (s@.len() - b) + trailing_spaces(s@.subrange(a as int, b as int)),
        decreases b,
    {
        proof {
            assert(s@.subrange(a as int, b as int).drop_last() =~= s@.subrange(
                a as int,
                b - 1,
            ));
        }
        b -= 1;
    }
    proof {
        assert(s@.subrange(a as int, s@.len() as int) =~= t);
        assert(t.take(t.len() - trailing_spaces(t)) =~= s@.subrange(a as int, b as int));
    }
    vstd::slice::slice_subrange(s, a, b)
}

} // verus!
