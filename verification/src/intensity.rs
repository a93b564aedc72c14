//! Intensities as fixed-point numbers.
//!
//! A level is an integer number of millionths: `UNIT` stands for `1.0`. Wire
//! values arrive as IEEE 754 single-precision bit patterns and are converted
//! once, at the edge; everything after that is integer arithmetic.

use vstd::arithmetic::div_mod::lemma_basic_div;
use vstd::arithmetic::power2::{
    lemma2_to64, lemma2_to64_rest, lemma_pow2_strictly_increases, lemma_pow2_unfold, pow2,
};
use vstd::bits::{lemma_u64_shl_is_mul, lemma_u64_shr_is_div};
use vstd::prelude::*;

verus! {

/// The fixed-point representation of `1.0`.
pub const UNIT: u32 = 1_000_000;

/// The largest magnitude a converted wire value can have (`1.0e6`).
pub const SATURATION: i64 = 1_000_000_000_000;

/// Whether the sign bit of a single-precision bit pattern is set.
pub open spec fn sign_bit(bits: u32) -> bool {
    bits >= 0x8000_0000
}

/// The biased exponent of a single-precision bit pattern: the eight bits
/// below the sign.
pub open spec fn exponent_field(bits: u32) -> int {
    (bits as int / 0x80_0000) % 0x100
}

/// The fraction of a single-precision bit pattern: its low twenty-three bits.
pub open spec fn fraction_field(bits: u32) -> int {
    bits as int % 0x80_0000
}

/// The significand: the fraction, with the implicit leading one for normal
/// numbers.
pub open spec fn significand(bits: u32) -> int {
    if exponent_field(bits) == 0 {
        fraction_field(bits)
    } else {
        fraction_field(bits) + 0x80_0000
    }
}

/// How many binary places the significand lies below the units place. The
/// magnitude of the encoded value is `significand / 2^places`; with zero
/// places or fewer it is at least `2^23`.
pub open spec fn binary_places(bits: u32) -> int {
    if exponent_field(bits) == 0 {
        149
    } else {
        150 - exponent_field(bits)
    }
}

/// The magnitude of the encoded value in millionths, rounded to the nearest
/// with halves up, and saturated at `SATURATION`. A NaN counts as zero, an
/// infinity saturates.
pub open spec fn magnitude_from_bits(bits: u32) -> int {
    let places = binary_places(bits);
    if exponent_field(bits) == 0xff {
        if fraction_field(bits) == 0 {
            SATURATION as int
        } else {
            0
        }
    } else if places <= 0 {
        SATURATION as int
    } else {
        let rounded = (significand(bits) * 1_000_000 + pow2((places - 1) as nat)) / (pow2(
            places as nat,
        ) as int);
        if rounded >= SATURATION {
            SATURATION as int
        } else {
            rounded
        }
    }
}

/// The encoded value in millionths: the magnitude with the sign applied.
pub open spec fn level_from_bits(bits: u32) -> int {
    if sign_bit(bits) {
        -magnitude_from_bits(bits)
    } else {
        magnitude_from_bits(bits)
    }
}

/// A value that lies forty-six binary places or more below the units place
/// is less than half a millionth.
proof fn lemma_far_below_rounds_to_zero(scaled: int, places: int)
    requires
        0 <= scaled < 0x1000_0000_0000,
        46 <= places,
    ensures
        (scaled + pow2((places - 1) as nat)) / (pow2(places as nat) as int) == 0,
{
    lemma2_to64_rest();
    lemma_pow2_unfold(places as nat);
    if places - 1 > 45 {
        lemma_pow2_strictly_increases(45, (places - 1) as nat);
    }
    lemma_basic_div(scaled + pow2((places - 1) as nat), pow2(places as nat) as int);
}

/// Converts a single-precision bit pattern to millionths.
pub fn from_bits(bits: u32) -> (level: i64)
    ensures
        level == level_from_bits(bits),
        -SATURATION <= level <= SATURATION,
{
    let exponent: u32 = (bits / 0x80_0000) % 0x100;
    let fraction: u32 = bits % 0x80_0000;
    let negative: bool = bits >= 0x8000_0000;
    let magnitude: i64 = if exponent == 0xff {
        if fraction == 0 {
            SATURATION
        } else {
            0
        }
    } else if exponent >= 150 {
        SATURATION
    } else {
        let mantissa: u32 = if exponent == 0 {
            fraction
        } else {
            fraction + 0x80_0000
        };
        let places: u32 = if exponent == 0 {
            149
        } else {
            150 - exponent
        };
        let scaled: u64 = mantissa as u64 * 1_000_000;
        if places >= 46 {
            proof {
                lemma_far_below_rounds_to_zero(scaled as int, places as int);
            }
            0
        } else {
            let half: u64 = 1u64 << ((places - 1) as u64);
            proof {
                lemma2_to64();
                lemma2_to64_rest();
                lemma_pow2_strictly_increases((places - 1) as nat, 45);
                lemma_u64_shl_is_mul(1, (places - 1) as u64);
            }
            let sum: u64 = scaled + half;
            let rounded: u64 = sum >> (places as u64);
            proof {
                lemma_u64_shr_is_div(sum, places as u64);
            }
            assert(rounded <= sum) by (bit_vector)
                requires
                    rounded == sum >> (places as u64),
            ;
            if rounded >= 1_000_000_000_000 {
                SATURATION
            } else {
                rounded as i64
            }
        }
    };
    if negative {
        -magnitude
    } else {
        magnitude
    }
}

/// The effective level of an argument under a scale factor: their product,
/// rounded down to a millionth and clamped to `[0, UNIT]`.
pub open spec fn scaled_level(argument: int, scale: int) -> int {
    let product = argument * scale;
    if product <= 0 {
        0
    } else if product / (UNIT as int) >= UNIT as int {
        UNIT as int
    } else {
        product / (UNIT as int)
    }
}

/// The magnitude of a signed value.
pub open spec fn magnitude(value: int) -> int {
    if value < 0 {
        -value
    } else {
        value
    }
}

fn magnitude_of(value: i64) -> (m: u64)
    ensures
        m == magnitude(value as int),
{
    if value < 0 {
        let below: i64 = -(value + 1);
        below as u64 + 1
    } else {
        value as u64
    }
}

/// Multiplies an argument by a scale factor and clamps the product to
/// `[0, UNIT]`.
pub fn scale_and_clamp(argument: i64, scale: i64) -> (level: u32)
    ensures
        level == scaled_level(argument as int, scale as int),
        level <= UNIT,
{
    if argument == 0 || scale == 0 || (argument < 0) != (scale < 0) {
        assert(argument as int * scale as int <= 0) by (nonlinear_arith)
            requires
                argument == 0 || scale == 0 || (argument < 0) != (scale < 0),
        ;
        return 0;
    }
    let a: u64 = magnitude_of(argument);
    let s: u64 = magnitude_of(scale);
    assert(a as int * s as int == argument as int * scale as int && a as int * s as int > 0
        && a as int * s as int <= 0xffff_ffff_ffff_ffff * 0xffff_ffff_ffff_ffff)
        by (nonlinear_arith)
        requires
            a == magnitude(argument as int),
            s == magnitude(scale as int),
            argument != 0,
            scale != 0,
            (argument < 0) == (scale < 0),
            a <= 0xffff_ffff_ffff_ffff,
            s <= 0xffff_ffff_ffff_ffff,
    ;
    let product: u128 = a as u128 * s as u128;
    let quotient: u128 = product / 1_000_000;
    if quotient >= 1_000_000 {
        UNIT
    } else {
        quotient as u32
    }
}

/// The whole percentage nearest to a level, halves rounded up.
pub open spec fn percent_of(level: int) -> int {
    (level * 100 + 500_000) / 1_000_000
}

/// Quantises a level to a whole percentage.
pub fn percent(level: u32) -> (p: u8)
    requires
        level <= UNIT,
    ensures
        p == percent_of(level as int),
        p <= 100,
{
    let scaled: u64 = level as u64 * 100 + 500_000;
    (scaled / 1_000_000) as u8
}

} // verus!
