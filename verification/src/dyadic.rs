//! Numbers of the form `m / 2^shift`, by which colours are cut into bytes.

use vstd::prelude::*;
use crate::scalar::Scalar;

verus! {

/// Two to the power 23: the weight of the leading one of a normalized
/// significand.
pub const LEADING_ONE: u32 = 0x80_0000;

/// `m`, doubled until it reaches two to the power 23.
pub open spec fn normalized(m: int) -> int
    decreases (if m < 0x80_0000 { 0x80_0000 - m } else { 0 }),
{
    if m <= 0 || m >= LEADING_ONE {
        m
    } else {
        normalized(2 * m)
    }
}

/// How often `m` is doubled until it reaches two to the power 23.
pub open spec fn doublings(m: int) -> int
    decreases (if m < 0x80_0000 { 0x80_0000 - m } else { 0 }),
{
    if m <= 0 || m >= LEADING_ONE {
        0
    } else {
        1 + doublings(2 * m)
    }
}

/// The pattern of the number `m / 2^shift`, for an `m` from 1 to below two
/// to the power 24 and a `shift` for which the number is neither too small
/// nor too large to be held in normalized form: the exponent field counts
/// from 150 down by the shift and by the doublings that normalize `m`, and
/// the fraction field holds the normalized `m` without its leading one.
pub open spec fn dyadic(m: int, shift: int) -> Scalar {
    Scalar {
        bits: ((150 - doublings(m) - shift) * LEADING_ONE + (normalized(m) - LEADING_ONE)) as u32,
    }
}

/// How many of the numbers `1/256`, `2/256`, up to `k/256` are at most `v`.
pub open spec fn steps_up_to(v: Scalar, k: int) -> int
    decreases k,
{
    if k <= 0 {
        0
    } else {
        steps_up_to(v, k - 1) + if dyadic(k, 8).le(v) {
            1int
        } else {
            0int
        }
    }
}

/// A larger number needs no more doublings.
proof fn lemma_doublings_monotone(x: int, t: int)
    requires
        1 <= t <= x,
    ensures
        0 <= doublings(x) <= doublings(t),
    decreases (if t < 0x80_0000 { 0x80_0000 - t } else { 0 }),
{
    if t < LEADING_ONE {
        lemma_doublings_monotone(2 * x, 2 * t);
    }
}

/// No number needs more than 23 doublings.
proof fn lemma_doublings_bound(x: int)
    requires
        1 <= x,
    ensures
        0 <= doublings(x) <= 23,
{
    assert(doublings(1) == 23) by {
        reveal_with_fuel(doublings, 25);
    }
    lemma_doublings_monotone(x, 1);
}

/// The pattern of `m / 2^shift`.
pub fn make_dyadic(m: u32, shift: u32) -> (s: Scalar)
    requires
        1 <= m < 2 * LEADING_ONE,
        shift <= 100,
    ensures
        s == dyadic(m as int, shift as int),
{
    let mut x: u32 = m;
    let mut e: u32 = 150 - shift;
    proof {
        lemma_doublings_bound(m as int);
    }
    while x < LEADING_ONE
        invariant
            1 <= x < 2 * LEADING_ONE,
            0 <= doublings(m as int) <= 23,
            shift <= 100,
            e <= 150,
            normalized(x as int) == normalized(m as int),
            e - doublings(x as int) == 150 - shift - doublings(m as int),
        decreases (if x < LEADING_ONE { LEADING_ONE - x } else { 0 }),
    {
        proof {
            lemma_doublings_bound(2 * x);
        }
        x = x * 2;
        e = e - 1;
    }
    Scalar { bits: e * LEADING_ONE + (x - LEADING_ONE) }
}

/// The normalized form has its leading one at two to the power 23.
pub proof fn lemma_normalized_range(m: int)
    requires
        1 <= m < 2 * LEADING_ONE,
    ensures
        LEADING_ONE <= normalized(m) < 2 * LEADING_ONE,
    decreases (if m < 0x80_0000 { 0x80_0000 - m } else { 0 }),
{
    if m < LEADING_ONE {
        lemma_normalized_range(2 * m);
    }
}

/// Of two numbers that need the same doublings, the larger has the larger
/// normalized form.
pub proof fn lemma_normalized_monotone(a: int, b: int)
    requires
        1 <= a < b,
        doublings(a) == doublings(b),
    ensures
        normalized(a) < normalized(b),
    decreases (if a < 0x80_0000 { 0x80_0000 - a } else { 0 }),
{
    if a < LEADING_ONE {
        lemma_doublings_bound(2 * a);
        if b < LEADING_ONE {
            lemma_normalized_monotone(2 * a, 2 * b);
        }
    }
}

/// The pattern of `m / 2^shift` is that of a positive number.
pub proof fn lemma_dyadic_is_positive(m: int, shift: int)
    requires
        1 <= m < 2 * LEADING_ONE,
        0 <= shift <= 100,
    ensures
        dyadic(m, shift).bits == (150 - doublings(m) - shift) * LEADING_ONE + (normalized(m)
            - LEADING_ONE),
        !dyadic(m, shift).is_nan(),
        dyadic(m, shift).key() == dyadic(m, shift).bits,
        Scalar::zero().lt(dyadic(m, shift)),
{
    lemma_doublings_bound(m);
    lemma_normalized_range(m);
}

/// A larger `m` gives a larger number.
pub proof fn lemma_dyadic_increases(a: int, b: int, shift: int)
    requires
        1 <= a < b < 2 * LEADING_ONE,
        0 <= shift <= 100,
    ensures
        dyadic(a, shift).lt(dyadic(b, shift)),
{
    lemma_dyadic_is_positive(a, shift);
    lemma_dyadic_is_positive(b, shift);
    lemma_doublings_monotone(b, a);
    lemma_normalized_range(a);
    lemma_normalized_range(b);
    if doublings(a) == doublings(b) {
        lemma_normalized_monotone(a, b);
    }
}

/// `2 m / 2^(shift + 1)` is `m / 2^shift`.
pub proof fn lemma_dyadic_doubled(m: int, shift: int)
    requires
        1 <= m < LEADING_ONE,
    ensures
        dyadic(2 * m, shift + 1) == dyadic(m, shift),
{
}

/// Where `v` reaches `n / 256` and not `(n + 1) / 256`, it reaches exactly
/// the first `n` of the steps, however many are counted.
pub proof fn lemma_steps_counted(v: Scalar, n: int, k: int)
    requires
        0 <= n <= 255,
        0 <= k <= 255,
        n > 0 ==> dyadic(n, 8).le(v),
        n < 255 ==> !dyadic(n + 1, 8).le(v),
    ensures
        steps_up_to(v, k) == if k <= n {
            k
        } else {
            n
        },
    decreases k,
{
    if k > 0 {
        lemma_steps_counted(v, n, k - 1);
        lemma_dyadic_is_positive(k, 8);
        if k < n {
            lemma_dyadic_increases(k, n, 8);
        } else if k > n + 1 {
            lemma_dyadic_increases(n + 1, k, 8);
        }
    }
}

/// The middle of the step of byte `b` reaches exactly `b` of the steps.
pub proof fn lemma_steps_of_dyadic(b: int)
    requires
        0 <= b <= 255,
    ensures
        !dyadic(2 * b + 1, 9).is_nan(),
        steps_up_to(dyadic(2 * b + 1, 9), 255) == b,
{
    let v = dyadic(2 * b + 1, 9);
    lemma_dyadic_is_positive(2 * b + 1, 9);
    if b > 0 {
        lemma_dyadic_doubled(b, 8);
        lemma_dyadic_increases(2 * b, 2 * b + 1, 9);
    }
    if b < 255 {
        lemma_dyadic_doubled(b + 1, 8);
        lemma_dyadic_increases(2 * b + 1, 2 * b + 2, 9);
        lemma_dyadic_is_positive(2 * b + 2, 9);
    }
    lemma_steps_counted(v, b, 255);
}

/// How many of the numbers `1/256` to `255/256` are at most `v`, found by
/// halving the range in which the count can lie.
pub fn count_steps(v: Scalar) -> (n: u8)
    requires
        !v.is_nan(),
    ensures
        n == steps_up_to(v, 255),
{
    let mut lo: u32 = 0;
    let mut hi: u32 = 255;
    while lo < hi
        invariant
            lo <= hi <= 255,
            lo > 0 ==> dyadic(lo as int, 8).le(v),
            hi < 255 ==> !dyadic(hi + 1, 8).le(v),
        decreases hi - lo,
    {
        let mid = (lo + hi + 1) / 2;
        if make_dyadic(mid, 8).le(v) {
            lo = mid;
        } else {
            hi = mid - 1;
        }
    }
    proof {
        lemma_steps_counted(v, lo as int, 255);
    }
    lo as u8
}

} // verus!
