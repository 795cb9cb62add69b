//! Rounding of a ratio of integers to the nearest integer, ties away from zero.

use vstd::prelude::*;

verus! {

/// Absolute value of an integer.
pub open spec fn abs(v: int) -> int {
    if v < 0 {
        -v
    } else {
        v
    }
}

/// The integer nearest to `num / den`; a ratio that lies exactly between two
/// integers goes to the one farther from zero.
pub open spec fn round_half_away(num: int, den: int) -> int
    recommends
        den > 0,
{
    if num >= 0 {
        (2 * num + den) / (2 * den)
    } else {
        -((2 * (-num) + den) / (2 * den))
    }
}

/// Rounding a non-negative ratio: the result `q` is the one integer with
/// `2 * q * den - den <= 2 * num < 2 * q * den + den`.
pub proof fn lemma_round_nonnegative(num: int, den: int)
    requires
        num >= 0,
        den > 0,
    ensures
        round_half_away(num, den) >= 0,
        2 * round_half_away(num, den) * den - den <= 2 * num,
        2 * num < 2 * round_half_away(num, den) * den + den,
{
    let q = (2 * num + den) / (2 * den);
    let r = (2 * num + den) % (2 * den);
    assert(2 * num + den == (2 * den) * q + r && 0 <= r < 2 * den && q >= 0) by (nonlinear_arith)
        requires
            num >= 0,
            den > 0,
            q == (2 * num + den) / (2 * den),
            r == (2 * num + den) % (2 * den),
    ;
    assert((2 * den) * q == 2 * q * den) by (nonlinear_arith);
}

/// The band of [`lemma_round_nonnegative`] holds one integer only: an integer
/// within it is the rounded value.
pub proof fn lemma_round_unique(num: int, den: int, q: int)
    requires
        num >= 0,
        den > 0,
        2 * q * den - den <= 2 * num,
        2 * num < 2 * q * den + den,
    ensures
        round_half_away(num, den) == q,
{
    let r = round_half_away(num, den);
    lemma_round_nonnegative(num, den);
    assert(r == q) by (nonlinear_arith)
        requires
            den > 0,
            2 * q * den - den <= 2 * num,
            2 * num < 2 * q * den + den,
            2 * r * den - den <= 2 * num,
            2 * num < 2 * r * den + den,
    ;
}

/// The rounded value is a nearest integer: it lies within half a unit of the
/// ratio, and on a tie it is the candidate of larger magnitude.
pub proof fn lemma_round_is_nearest(num: int, den: int)
    requires
        den > 0,
    ensures
        2 * abs(round_half_away(num, den) * den - num) <= den,
        2 * abs(round_half_away(num, den) * den - num) == den ==> abs(
            round_half_away(num, den) * den,
        ) > abs(num),
{
    if num >= 0 {
        lemma_round_nonnegative(num, den);
        let q = round_half_away(num, den);
        assert(2 * (q * den - num) == 2 * q * den - 2 * num) by (nonlinear_arith);
        assert(q * den >= 0) by (nonlinear_arith)
            requires
                q >= 0,
                den > 0,
        ;
    } else {
        lemma_round_nonnegative(-num, den);
        let q = round_half_away(-num, den);
        assert(round_half_away(num, den) == -q);
        assert((-q) * den == -(q * den)) by (nonlinear_arith);
        assert(2 * (q * den - (-num)) == 2 * q * den + 2 * num) by (nonlinear_arith);
        assert(q * den >= 0) by (nonlinear_arith)
            requires
                q >= 0,
                den > 0,
        ;
    }
}

/// Rounding is odd: negating the ratio negates the result.
pub proof fn lemma_round_negation(num: int, den: int)
    requires
        den > 0,
    ensures
        round_half_away(-num, den) == -round_half_away(num, den),
{
    if num == 0 {
        lemma_round_unique(0, den, 0);
    }
}

/// Rounding depends on the ratio alone: a common positive factor of numerator
/// and denominator changes nothing.
pub proof fn lemma_round_scaling(num: int, den: int, factor: int)
    requires
        num >= 0,
        den > 0,
        factor > 0,
    ensures
        round_half_away(factor * num, factor * den) == round_half_away(num, den),
{
    let q = round_half_away(num, den);
    lemma_round_nonnegative(num, den);
    assert(factor * num >= 0 && factor * den > 0 && 2 * q * (factor * den) - factor * den <= 2 * (
    factor * num) && 2 * (factor * num) < 2 * q * (factor * den) + factor * den)
        by (nonlinear_arith)
        requires
            num >= 0,
            den > 0,
            factor > 0,
            2 * q * den - den <= 2 * num,
            2 * num < 2 * q * den + den,
    ;
    lemma_round_unique(factor * num, factor * den, q);
}

/// A ratio between two integers rounds to a value between them.
pub proof fn lemma_round_between(num: int, den: int, low: int, high: int)
    requires
        den > 0,
        low * den <= num <= high * den,
    ensures
        low <= round_half_away(num, den) <= high,
{
    let q = round_half_away(num, den);
    lemma_round_is_nearest(num, den);
    assert(low <= q) by (nonlinear_arith)
        requires
            den > 0,
            low * den <= num,
            2 * (q * den - num) >= -den,
    ;
    assert(q <= high) by (nonlinear_arith)
        requires
            den > 0,
            num <= high * den,
            2 * (q * den - num) <= den,
    ;
}

/// A whole multiple of the denominator rounds to its quotient.
pub proof fn lemma_round_exact(value: int, den: int)
    requires
        den > 0,
    ensures
        round_half_away(value * den, den) == value,
{
    lemma_round_between(value * den, den, value, value);
}

/// Quotient and remainder of a Euclidean division by a positive number.
proof fn lemma_quotient_remainder(n: int, d: int)
    by (nonlinear_arith)
    requires
        n >= 0,
        d > 0,
    ensures
        n == (n / d) * d + n % d,
        0 <= n % d < d,
        0 <= n / d <= n,
        d >= 2 ==> 2 * (n / d) <= n,
{
}

/// Rounds the magnitude `n / d`: the quotient, and one more when the
/// remainder is half the denominator or more.
fn round_magnitude(n: u128, d: u128) -> (r: u128)
    requires
        d > 0,
        n <= 0x8000_0000_0000_0000_0000_0000_0000_0000,
    ensures
        r == round_half_away(n as int, d as int),
        r <= n,
{
    let q: u128 = n / d;
    let rem: u128 = n % d;
    proof {
        lemma_quotient_remainder(n as int, d as int);
    }
    let r: u128 = if rem >= d - rem {
        q + 1
    } else {
        q
    };
    proof {
        assert(2 * r * d - d <= 2 * n && 2 * n < 2 * r * d + d && r <= n) by (nonlinear_arith)
            requires
                n == q * d + rem,
                0 <= rem < d,
                d >= 2 ==> 2 * q <= n,
                rem >= d - rem ==> r == q + 1,
                rem < d - rem ==> r == q,
        ;
        lemma_round_unique(n as int, d as int, r as int);
    }
    r
}

/// Computes [`round_half_away`].
pub fn round_ratio(num: i128, den: u64) -> (r: i128)
    requires
        den > 0,
    ensures
        r == round_half_away(num as int, den as int),
{
    let d: u128 = den as u128;
    if num >= 0 {
        round_magnitude(num as u128, d) as i128
    } else {
        let n: u128 = ((-(num + 1)) as u128) + 1;
        let q: u128 = round_magnitude(n, d);
        if q == 0x8000_0000_0000_0000_0000_0000_0000_0000 {
            i128::MIN
        } else {
            -(q as i128)
        }
    }
}

} // verus!
