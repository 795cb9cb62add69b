//! Reading coordinates from IEEE 754 single-precision bit patterns.
//!
//! Documents give their coordinates as single-precision numbers. A finite
//! number of that format is `mantissa * 2^exponent` with a sign; this module
//! takes its bit pattern (what `f32::to_bits` returns) apart with integer
//! arithmetic and scales it to fixed-point units.

use crate::error::ConversionError;
use crate::point::{grid_cell, Coordinate, UNIT};
use crate::rounding::{
    lemma_round_between,
    lemma_round_exact,
    lemma_round_negation,
    lemma_round_scaling,
    lemma_round_unique,
    round_half_away,
};
use vstd::arithmetic::power2::{
    lemma2_to64,
    lemma2_to64_rest,
    lemma_pow2_adds,
    lemma_pow2_pos,
    lemma_pow2_strictly_increases,
    lemma_pow2_unfold,
    pow2,
};
use vstd::bits::{lemma_u64_shl_is_mul, lemma_u64_shr_is_div};
use vstd::prelude::*;

verus! {

/// The sign bit of a pattern: whether the number is negative (or a negative
/// zero).
pub open spec fn is_negative(bits: u32) -> bool {
    bits >= 0x8000_0000
}

/// The eight exponent bits of a pattern.
pub open spec fn exponent_field(bits: u32) -> int {
    (bits as int / 0x80_0000) % 0x100
}

/// The twenty-three fraction bits of a pattern.
pub open spec fn fraction_field(bits: u32) -> int {
    bits as int % 0x80_0000
}

/// Whether the pattern is a number: neither an infinity nor a NaN.
pub open spec fn is_finite(bits: u32) -> bool {
    exponent_field(bits) != 0xff
}

/// The integer mantissa of a finite pattern: the fraction bits, with the
/// implicit leading bit unless the number is subnormal.
pub open spec fn mantissa(bits: u32) -> int {
    if exponent_field(bits) == 0 {
        fraction_field(bits)
    } else {
        0x80_0000 + fraction_field(bits)
    }
}

/// The power of two by which the mantissa of a finite pattern is scaled.
pub open spec fn exponent(bits: u32) -> int {
    if exponent_field(bits) == 0 {
        -149
    } else {
        exponent_field(bits) - 150
    }
}

/// The magnitude of a finite pattern in fixed-point units of `2^-32`, to the
/// nearest unit: `mantissa * 2^(exponent + 32)`.
pub open spec fn magnitude_units(bits: u32) -> int {
    let scale = exponent(bits) + 32;
    if scale >= 0 {
        mantissa(bits) * pow2(scale as nat)
    } else {
        round_half_away(mantissa(bits), pow2((-scale) as nat) as int)
    }
}

/// Whether the pattern is a number that a coordinate can hold: finite and of
/// magnitude below `2^31`.
pub open spec fn is_representable(bits: u32) -> bool {
    is_finite(bits) && magnitude_units(bits) < 0x8000_0000_0000_0000
}

/// The value of a representable pattern in fixed-point units.
pub open spec fn units(bits: u32) -> int {
    if is_negative(bits) {
        -magnitude_units(bits)
    } else {
        magnitude_units(bits)
    }
}

/// The integer nearest to the magnitude of a finite pattern, the number
/// itself and not its fixed-point reading; a magnitude halfway between two
/// integers goes to the larger.
pub open spec fn nearest_integer(bits: u32) -> int {
    if exponent(bits) >= 0 {
        mantissa(bits) * pow2(exponent(bits) as nat)
    } else {
        round_half_away(mantissa(bits), pow2((-exponent(bits)) as nat) as int)
    }
}

/// The fields of a pattern are within their widths.
proof fn lemma_fields(bits: u32)
    ensures
        0 <= exponent_field(bits) <= 0xff,
        0 <= fraction_field(bits) < 0x80_0000,
        0 <= mantissa(bits) < 0x100_0000,
        -149 <= exponent(bits) <= 105,
{
}

/// Reading a number in fixed point does not change the cell it rounds to: the
/// cell of a representable pattern is the nearest integer to the number, ties
/// away from zero, with the sign of the number.
pub proof fn lemma_cell_of_binary32(bits: u32)
    requires
        is_representable(bits),
    ensures
        grid_cell(units(bits)) == if is_negative(bits) {
            -nearest_integer(bits)
        } else {
            nearest_integer(bits)
        },
{
    let m = mantissa(bits);
    let e = exponent(bits);
    lemma_fields(bits);
    lemma2_to64();
    lemma2_to64_rest();
    if e >= 0 {
        lemma_pow2_adds(e as nat, 32);
        lemma_pow2_pos(e as nat);
        assert(m * (pow2(e as nat) * pow2(32)) == (m * pow2(e as nat)) * pow2(32))
            by (nonlinear_arith);
        lemma_round_exact(m * pow2(e as nat), UNIT as int);
    } else if e >= -32 {
        let up = pow2((e + 32) as nat) as int;
        let down = pow2((-e) as nat) as int;
        lemma_pow2_adds((e + 32) as nat, (-e) as nat);
        lemma_pow2_pos((e + 32) as nat);
        lemma_pow2_pos((-e) as nat);
        assert(m * up == up * m) by (nonlinear_arith);
        lemma_round_scaling(m, down, up);
    } else {
        let fine = pow2((-e - 32) as nat) as int;
        let coarse = pow2((-e) as nat) as int;
        lemma_pow2_pos((-e - 32) as nat);
        lemma_pow2_strictly_increases(32, (-e) as nat);
        assert(m <= m * fine) by (nonlinear_arith)
            requires
                m >= 0,
                fine >= 1,
        ;
        lemma_round_between(m, fine, 0, m);
        lemma_round_unique(magnitude_units(bits), UNIT as int, 0);
        lemma_round_unique(m, coarse, 0);
    }
    lemma_round_negation(magnitude_units(bits), UNIT as int);
}

/// A mantissa of fewer than 25 bits, scaled by at most `2^39`, stays below
/// `2^63`; scaled by `2^40` or more with its leading bit set, it does not.
proof fn lemma_scaled_mantissa(m: int, p: int)
    by (nonlinear_arith)
    requires
        0 <= m < 0x100_0000,
        p > 0,
    ensures
        p <= 0x80_0000_0000 ==> m * p < 0x8000_0000_0000_0000,
        p >= 0x100_0000_0000 && m >= 0x80_0000 ==> m * p >= 0x8000_0000_0000_0000,
{
}

/// Euclidean division by a positive number.
proof fn lemma_quotient_band(x: int, d: int)
    by (nonlinear_arith)
    requires
        x >= 0,
        d > 0,
    ensures
        (x / d) * d <= x < (x / d) * d + d,
{
}

impl Coordinate {
    /// The coordinate of a single-precision number given by its bit pattern,
    /// to the nearest fixed-point unit. An infinity or a NaN is refused as not
    /// finite, a number of magnitude `2^31` or more as out of range.
    pub fn from_binary32(bits: u32) -> (r: Result<Coordinate, ConversionError>)
        ensures
            match r {
                Ok(c) => is_representable(bits) && c@ == units(bits),
                Err(e) => !is_representable(bits) && e == if is_finite(bits) {
                    ConversionError::CoordinateOutOfRange
                } else {
                    ConversionError::NonFiniteCoordinate
                },
            },
    {
        let field: u32 = (bits >> 23) & 0xff;
        let fraction: u32 = bits & 0x7f_ffff;
        let negative: bool = bits >= 0x8000_0000;
        assert(field == (bits / 0x80_0000) % 0x100 && fraction == bits % 0x80_0000)
            by (bit_vector)
            requires
                field == (bits >> 23) & 0xff,
                fraction == bits & 0x7f_ffff,
        ;
        if field == 0xff {
            return Err(ConversionError::NonFiniteCoordinate);
        }
        let m: u64 = if field == 0 {
            fraction as u64
        } else {
            0x80_0000 + (fraction as u64)
        };
        proof {
            lemma2_to64();
            lemma2_to64_rest();
        }
        if field >= 158 {
            proof {
                let scale = (field - 118) as nat;
                if scale > 40 {
                    lemma_pow2_strictly_increases(40, scale);
                }
                lemma_scaled_mantissa(m as int, pow2(scale) as int);
            }
            return Err(ConversionError::CoordinateOutOfRange);
        }
        let magnitude: u64 = if field >= 118 {
            let shift: u64 = (field - 118) as u64;
            proof {
                if shift < 39 {
                    lemma_pow2_strictly_increases(shift as nat, 39);
                }
                lemma_scaled_mantissa(m as int, pow2(shift as nat) as int);
                lemma_u64_shl_is_mul(m, shift);
            }
            m << shift
        } else {
            let shift: u64 = if field == 0 {
                117
            } else {
                (118 - field) as u64
            };
            if shift >= 25 {
                proof {
                    if shift > 25 {
                        lemma_pow2_strictly_increases(25, shift as nat);
                    }
                    lemma_round_unique(m as int, pow2(shift as nat) as int, 0);
                }
                0
            } else {
                proof {
                    lemma_pow2_strictly_increases((shift - 1) as nat, 24);
                    lemma_u64_shl_is_mul(1, (shift - 1) as u64);
                }
                let half: u64 = 1u64 << (shift - 1);
                let rounded: u64 = (m + half) >> shift;
                proof {
                    let d = pow2(shift as nat) as int;
                    lemma_u64_shr_is_div((m + half) as u64, shift);
                    assert(d == 2 * half) by {
                        lemma_pow2_unfold(shift as nat);
                    }
                    lemma_quotient_band(m + half, d);
                    assert(2 * (rounded * d) == 2 * rounded * d) by (nonlinear_arith);
                    lemma_round_unique(m as int, d, rounded as int);
                }
                rounded
            }
        };
        let units: i64 = if negative {
            -(magnitude as i64)
        } else {
            magnitude as i64
        };
        Ok(Coordinate { units })
    }
}

} // verus!
