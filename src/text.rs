//! Byte-level helpers for reading bet identifiers.
use vstd::prelude::*;

verus! {

/// The byte value of the digit `0`.
pub const DIGIT_ZERO: u8 = 48;

/// Whether byte `b` is a decimal digit.
pub open spec fn is_digit(b: u8) -> bool {
    DIGIT_ZERO <= b <= DIGIT_ZERO + 9
}

/// The value of the decimal digit `b`.
pub open spec fn digit_value(b: u8) -> int {
    b - DIGIT_ZERO
}

/// The canonical decimal spelling of `n` (no sign, no leading zero), for `n < 100`.
pub open spec fn decimal(n: int) -> Seq<u8> {
    if n < 10 {
        seq![(DIGIT_ZERO + n) as u8]
    } else {
        seq![(DIGIT_ZERO + n / 10) as u8, (DIGIT_ZERO + n % 10) as u8]
    }
}

/// Whether `s` begins with `p`.
pub open spec fn starts_with(s: Seq<u8>, p: Seq<u8>) -> bool {
    p.len() <= s.len() && s.subrange(0, p.len() as int) == p
}

/// Compares two byte strings.
pub fn same_bytes(s: &[u8], w: &[u8]) -> (r: bool)
    ensures
        r == (s@ == w@),
{
    if s.len() != w.len() {
        return false;
    }
    assert(s@.subrange(0, s@.len() as int) == s@);
    has_prefix(s, w)
}

/// Tests whether `s` begins with `p`.
pub fn has_prefix(s: &[u8], p: &[u8]) -> (r: bool)
    ensures
        r == starts_with(s@, p@),
{
    if p.len() > s.len() {
        return false;
    }
    let mut i: usize = 0;
    while i < p.len()
        invariant
            p@.len() <= s@.len(),
            0 <= i <= p@.len(),
            s@.subrange(0, i as int) == p@.subrange(0, i as int),
        decreases p@.len() - i,
    {
        if s[i] != p[i] {
            assert(s@.subrange(0, p@.len() as int)[i as int] != p@[i as int]);
            return false;
        }
        assert(s@.subrange(0, i + 1) == s@.subrange(0, i as int).push(s@[i as int]));
        assert(p@.subrange(0, i + 1) == p@.subrange(0, i as int).push(p@[i as int]));
        i = i + 1;
    }
    assert(p@ == p@.subrange(0, p@.len() as int));
    true
}

/// Tests whether `s` is the canonical decimal spelling of `n`.
pub fn spells(s: &[u8], n: u8) -> (r: bool)
    requires
        n < 100,
    ensures
        r == (s@ == decimal(n as int)),
{
    if n < 10 {
        if s.len() != 1 {
            return false;
        }
        assert(s@ =~= seq![s@[0]]);
        s[0] == DIGIT_ZERO + n
    } else {
        if s.len() != 2 {
            return false;
        }
        assert(s@ =~= seq![s@[0], s@[1]]);
        s[0] == DIGIT_ZERO + n / 10 && s[1] == DIGIT_ZERO + n % 10
    }
}

} // verus!
