//! The score quantizer.
//!
//! A relevance score is a 32-bit IEEE-754 value carried as its bit pattern.
//! Scores below a minimum threshold are dropped (weight 0); every other score
//! is encoded into an 8-bit floating-point format with 4 exponent bits and 3
//! mantissa bits (bias 7, no infinities, largest finite value 448, the
//! all-ones magnitude reserved for NaN), and the bit pattern of that 8-bit
//! value is the integer posting weight.  Encoding the weight `w` as `w`
//! repeated occurrences of a token makes the native term frequency of the
//! inverted index numerically equal to the quantized relevance score, so this
//! conversion is the single point of coupling between scoring and retrieval.
//!
//! The encoding follows the usual double-rounding-free path: the 32-bit value
//! is widened exactly to the 64-bit format and then rounded to the 8-bit
//! format with round-to-nearest-even, saturating every finite value above the
//! overflow threshold (464) to the largest finite value and preserving NaN.
//! The widening is exact, and every 32-bit subnormal lies below the 8-bit
//! underflow cutoff, so inputs with a zero exponent field collapse directly
//! to a signed zero.

use vstd::prelude::*;

verus! {

/// Bit pattern of the default minimum score threshold, 22.7136: an
/// empirically chosen cutoff below which scores carry negligible signal
/// relative to their encoding cost.
pub const DEFAULT_MIN_SCORE_BITS: u32 = 0x41B5_B574;

/// The sign field of a 32-bit IEEE-754 bit pattern: 1 for negative values.
pub open spec fn f32_sign(b: u32) -> u32 {
    b >> 31u32
}

/// The biased exponent field of a 32-bit IEEE-754 bit pattern.
pub open spec fn f32_exp(b: u32) -> u32 {
    (b >> 23u32) & 0xFF
}

/// The mantissa field of a 32-bit IEEE-754 bit pattern.
pub open spec fn f32_mant(b: u32) -> u32 {
    b & 0x7F_FFFF
}

/// The magnitude (everything but the sign) of a 32-bit IEEE-754 bit pattern.
pub open spec fn f32_mag(b: u32) -> u32 {
    b & 0x7FFF_FFFF
}

/// Whether a 32-bit IEEE-754 bit pattern denotes NaN.
pub open spec fn f32_is_nan(b: u32) -> bool {
    f32_exp(b) == 255 && f32_mant(b) != 0
}

/// The IEEE-754 `<` relation on 32-bit bit patterns: false whenever either
/// side is NaN, the two zeros are equal, and otherwise negative values order
/// by descending magnitude and positive values by ascending magnitude.
pub open spec fn f32_lt(a: u32, b: u32) -> bool {
    if f32_is_nan(a) || f32_is_nan(b) {
        false
    } else if f32_sign(a) != f32_sign(b) {
        f32_sign(a) == 1 && !(f32_mag(a) == 0 && f32_mag(b) == 0)
    } else if f32_sign(a) == 0 {
        f32_mag(a) < f32_mag(b)
    } else {
        f32_mag(b) < f32_mag(a)
    }
}

/// Rounding of a value in the normal range of the 8-bit format
/// (magnitude in [2^-6, 464]), given the 32-bit exponent and mantissa fields.
pub open spec fn fp8_round_normal(e: u32, m: u32) -> u32 {
    let exp8: u32 = (e - 120) as u32;
    let mant3: u32 = m >> 20u32;
    let base: u32 = (exp8 * 8 + mant3) as u32;
    let round: u32 = m & 0xF_FFFF;
    if round > 0x8_0000 || (round == 0x8_0000 && mant3 % 2 == 1) {
        (base + 1) as u32
    } else {
        base
    }
}

/// Rounding of a value in the subnormal range of the 8-bit format
/// (magnitude in (2^-10, 2^-6)), given the 32-bit exponent and mantissa
/// fields.
pub open spec fn fp8_round_subnormal(e: u32, m: u32) -> u32 {
    let shift: u32 = (121 - e) as u32;
    let mant4: u32 = (m >> 20u32) | 8;
    let base: u32 = mant4 >> shift;
    let full: u32 = m | 0x80_0000;
    let round: u32 = full & (((1u32 << ((20 + shift) as u32)) - 1) as u32);
    let half: u32 = 1u32 << ((19 + shift) as u32);
    if round > half || (round == half && base % 2 == 1) {
        (base + 1) as u32
    } else {
        base
    }
}

/// The 8-bit encoding (4 exponent bits, 3 mantissa bits) of the 32-bit
/// IEEE-754 value whose bit pattern is `x`.
pub open spec fn fp8_e4m3_of(x: u32) -> u8 {
    let sign: u32 = f32_sign(x) << 7u32;
    let e: u32 = f32_exp(x);
    let m: u32 = f32_mant(x);
    let body: u32 = if e == 255 && m != 0 {
        0x7F  // NaN is preserved
    } else if e == 0 {
        0  // zeros and 32-bit subnormals underflow to zero
    } else if e > 135 || (e == 135 && m > 0x68_0000) {
        0x7E  // saturate to the largest finite value
    } else if e >= 121 {
        fp8_round_normal(e, m)
    } else if e > 117 || (e == 117 && m > 0) {
        fp8_round_subnormal(e, m)
    } else {
        0  // at or below half the smallest subnormal
    };
    (body | sign) as u8
}

/// The posting weight of a score: 0 when the score is below the minimum
/// threshold, and otherwise the bit pattern of its 8-bit encoding.  A weight
/// of 0 means the token is dropped for this document.
pub open spec fn quantize_spec(score: u32, min_score: u32) -> u8 {
    if f32_lt(score, min_score) {
        0
    } else {
        fp8_e4m3_of(score)
    }
}

/// The IEEE-754 `<` test on two 32-bit bit patterns.
pub fn f32_lt_bits(a: u32, b: u32) -> (r: bool)
    ensures
        r == f32_lt(a, b),
{
    let a_exp: u32 = (a >> 23) & 0xFF;
    let a_mant: u32 = a & 0x7F_FFFF;
    let b_exp: u32 = (b >> 23) & 0xFF;
    let b_mant: u32 = b & 0x7F_FFFF;
    if (a_exp == 255 && a_mant != 0) || (b_exp == 255 && b_mant != 0) {
        false
    } else {
        let a_sign: u32 = a >> 31;
        let b_sign: u32 = b >> 31;
        let a_mag: u32 = a & 0x7FFF_FFFF;
        let b_mag: u32 = b & 0x7FFF_FFFF;
        if a_sign != b_sign {
            a_sign == 1 && !(a_mag == 0 && b_mag == 0)
        } else if a_sign == 0 {
            a_mag < b_mag
        } else {
            b_mag < a_mag
        }
    }
}

/// The 8-bit encoding of the 32-bit value whose bit pattern is `x`.
pub fn fp8_e4m3_bits(x: u32) -> (r: u8)
    ensures
        r == fp8_e4m3_of(x),
{
    let sign: u32 = (x >> 31) << 7;
    let e: u32 = (x >> 23) & 0xFF;
    let m: u32 = x & 0x7F_FFFF;
    proof {
        assert((x >> 31u32) << 7u32 == 0 || (x >> 31u32) << 7u32 == 0x80) by (bit_vector);
        assert(x & 0x7F_FFFF <= 0x7F_FFFF) by (bit_vector);
        assert(x & 0x7F_FFFF <= 0x7F_FFFF ==> (x & 0x7F_FFFF) >> 20u32 <= 7) by (bit_vector);
    }
    let body: u32 = if e == 255 && m != 0 {
        0x7F
    } else if e == 0 {
        0
    } else if e > 135 || (e == 135 && m > 0x68_0000) {
        0x7E
    } else if e >= 121 {
        let exp8: u32 = e - 120;
        let mant3: u32 = m >> 20;
        let base: u32 = exp8 * 8 + mant3;
        let round: u32 = m & 0xF_FFFF;
        if round > 0x8_0000 || (round == 0x8_0000 && mant3 % 2 == 1) {
            base + 1
        } else {
            base
        }
    } else if e > 117 || (e == 117 && m > 0) {
        let shift: u32 = 121 - e;
        let mant4: u32 = (m >> 20) | 8;
        proof {
            assert(m >> 20u32 <= 7 ==> (m >> 20u32) | 8 <= 15) by (bit_vector);
            assert(((m >> 20u32) | 8) >> shift <= (m >> 20u32) | 8) by (bit_vector);
            assert(shift <= 4 ==> 1u32 << (20 + shift) >= 1) by (bit_vector);
        }
        let base: u32 = mant4 >> shift;
        let full: u32 = m | 0x80_0000;
        let round: u32 = full & ((1u32 << (20 + shift)) - 1);
        let half: u32 = 1u32 << (19 + shift);
        if round > half || (round == half && base % 2 == 1) {
            base + 1
        } else {
            base
        }
    } else {
        0
    };
    proof {
        assert(body <= 0x80 && (sign == 0 || sign == 0x80) ==> body | sign <= 0xFF) by (bit_vector);
    }
    (body | sign) as u8
}

/// Quantize a relevance score (given as a 32-bit IEEE-754 bit pattern) into a
/// posting weight, dropping scores below the minimum threshold.
pub fn quantize(score: u32, min_score: u32) -> (w: u8)
    ensures
        w == quantize_spec(score, min_score),
{
    if f32_lt_bits(score, min_score) {
        0
    } else {
        fp8_e4m3_bits(score)
    }
}

/// Quantization floor: every score strictly below the threshold (in IEEE-754
/// order) is dropped with weight 0.
pub proof fn lemma_quantize_floor(score: u32, min_score: u32)
    requires
        f32_lt(score, min_score),
    ensures
        quantize_spec(score, min_score) == 0,
{
}

} // verus!
