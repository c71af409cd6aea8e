//! Sample encoding: integer PCM codes and their binary32 bit patterns.

use vstd::arithmetic::power2::{
    lemma2_to64, lemma_pow2_adds, lemma_pow2_pos, lemma_pow2_strictly_increases, lemma_pow2_unfold,
    pow2,
};
use vstd::prelude::*;

verus! {

/// Bit pattern of the binary32 number +0.0, the sample that stands for silence.
pub const SILENCE: u32 = 0;

/// Whether the sign bit of a binary32 bit pattern is set.
pub open spec fn sign_bit(bits: u32) -> bool {
    bits >= 0x8000_0000u32
}

/// The biased exponent stored in bits 23 to 30.
pub open spec fn exponent_field(bits: u32) -> int {
    (bits as int / 0x80_0000) % 256
}

/// The fraction stored in bits 0 to 22.
pub open spec fn fraction_field(bits: u32) -> int {
    bits as int % 0x80_0000
}

/// Neither an infinity nor a NaN.
pub open spec fn is_finite(bits: u32) -> bool {
    exponent_field(bits) < 255
}

/// The integer significand: the fraction, with the hidden leading one for
/// normal numbers.
pub open spec fn significand(bits: u32) -> int {
    if exponent_field(bits) == 0 {
        fraction_field(bits)
    } else {
        0x80_0000 + fraction_field(bits)
    }
}

/// The power of two that weighs one unit of the significand: the magnitude of
/// a finite number is `significand * 2^unit_exponent`.
pub open spec fn unit_exponent(bits: u32) -> int {
    if exponent_field(bits) == 0 {
        -149
    } else {
        exponent_field(bits) - 150
    }
}

/// The magnitude of an integer.
pub open spec fn abs(v: int) -> int {
    if v < 0 {
        -v
    } else {
        v
    }
}

/// The binary32 number with this bit pattern is exactly
/// `numerator / 2^denominator_log2`, and zero is encoded as +0.0.
pub open spec fn encodes_ratio(bits: u32, numerator: int, denominator_log2: nat) -> bool {
    let e = unit_exponent(bits) + denominator_log2;
    &&& is_finite(bits)
    &&& sign_bit(bits) == (numerator < 0)
    &&& if e >= 0 {
        significand(bits) * pow2(e as nat) == abs(numerator)
    } else {
        significand(bits) == abs(numerator) * pow2((-e) as nat)
    }
}

/// The magnitude of a finite number in units of 2^-149, the weight of the
/// smallest binary32 number.
pub open spec fn magnitude_units(bits: u32) -> int {
    significand(bits) * pow2((unit_exponent(bits) + 149) as nat)
}

/// A finite bit pattern that encodes a ratio has the ratio's magnitude.
proof fn lemma_magnitude_of_ratio(bits: u32, numerator: int, denominator_log2: nat)
    requires
        encodes_ratio(bits, numerator, denominator_log2),
    ensures
        magnitude_units(bits) * pow2(denominator_log2) == abs(numerator) * pow2(149),
{
    let u = (unit_exponent(bits) + 149) as nat;
    let e = unit_exponent(bits) + denominator_log2;
    let sig = significand(bits);
    let d = denominator_log2;
    if e >= 0 {
        lemma_pow2_adds(u, d);
        lemma_pow2_adds(e as nat, 149);
        assert(sig * pow2(u) * pow2(d) == sig * pow2(e as nat) * pow2(149)) by (nonlinear_arith)
            requires
                pow2(u) * pow2(d) == pow2(e as nat) * pow2(149),
        ;
    } else {
        lemma_pow2_adds((-e) as nat, u + d);
        lemma_pow2_adds(u, d);
        assert(abs(numerator) * pow2((-e) as nat) * pow2(u) * pow2(d) == abs(numerator) * pow2(
            149,
        )) by (nonlinear_arith)
            requires
                pow2((-e) as nat) * (pow2(u) * pow2(d)) == pow2(149),
        ;
    }
}

/// Finite bit patterns of the same magnitude have the same exponent and
/// fraction.
proof fn lemma_magnitude_is_injective(a: u32, b: u32)
    requires
        is_finite(a),
        is_finite(b),
        magnitude_units(a) == magnitude_units(b),
        exponent_field(a) <= exponent_field(b),
    ensures
        exponent_field(a) == exponent_field(b),
        fraction_field(a) == fraction_field(b),
{
    let ea = exponent_field(a);
    let eb = exponent_field(b);
    let fa = fraction_field(a);
    let fb = fraction_field(b);
    lemma2_to64();
    let va = magnitude_units(a);
    let vb = magnitude_units(b);
    if ea == 0 {
        assert(va == fa * 1);
    } else {
        assert(va == (0x80_0000 + fa) * pow2((ea - 1) as nat));
    }
    if eb == 0 {
        assert(vb == fb * 1);
    } else {
        assert(vb == (0x80_0000 + fb) * pow2((eb - 1) as nat));
    }
    if eb == 0 {
    } else if ea == 0 {
        let p = pow2((eb - 1) as nat);
        lemma_pow2_pos((eb - 1) as nat);
        assert((0x80_0000 + fb) * p >= 0x80_0000) by (nonlinear_arith)
            requires
                p >= 1,
                fb >= 0,
        ;
    } else {
        let pa = pow2((ea - 1) as nat);
        let pb = pow2((eb - 1) as nat);
        lemma_pow2_pos((ea - 1) as nat);
        if ea < eb {
            lemma_pow2_unfold(ea as nat);
            if ea < eb - 1 {
                lemma_pow2_strictly_increases(ea as nat, (eb - 1) as nat);
            }
            assert((0x80_0000 + fa) * pa < (0x80_0000 + fb) * pb) by (nonlinear_arith)
                requires
                    0 <= fa < 0x80_0000,
                    0 <= fb,
                    pa >= 1,
                    2 * pa <= pb,
            ;
        } else {
            assert(fa == fb) by (nonlinear_arith)
                requires
                    (0x80_0000 + fa) * pa == (0x80_0000 + fb) * pa,
                    pa >= 1,
            ;
        }
    }
}

/// A ratio has one encoding: two bit patterns that encode the same ratio
/// are the same.
pub proof fn lemma_encoding_is_unique(a: u32, b: u32, numerator: int, denominator_log2: nat)
    requires
        encodes_ratio(a, numerator, denominator_log2),
        encodes_ratio(b, numerator, denominator_log2),
    ensures
        a == b,
{
    lemma_magnitude_of_ratio(a, numerator, denominator_log2);
    lemma_magnitude_of_ratio(b, numerator, denominator_log2);
    lemma_pow2_pos(denominator_log2);
    let p = pow2(denominator_log2);
    assert(magnitude_units(a) == magnitude_units(b)) by (nonlinear_arith)
        requires
            magnitude_units(a) * p == magnitude_units(b) * p,
            p > 0,
    ;
    if exponent_field(a) <= exponent_field(b) {
        lemma_magnitude_is_injective(a, b);
    } else {
        lemma_magnitude_is_injective(b, a);
    }
    assert(a as int == (a as int / 0x80_0000) * 0x80_0000 + fraction_field(a));
    assert(b as int == (b as int / 0x80_0000) * 0x80_0000 + fraction_field(b));
    assert(a as int / 0x80_0000 == (if sign_bit(a) { 256int } else { 0 }) + exponent_field(a));
    assert(b as int / 0x80_0000 == (if sign_bit(b) { 256int } else { 0 }) + exponent_field(b));
}

/// The signed 16-bit code stored little-endian in two bytes.
pub open spec fn pcm16_code(lo: u8, hi: u8) -> int {
    lo + 256 * hi - if hi >= 128 { 65536int } else { 0 }
}

/// The signed 24-bit code stored little-endian in three bytes.
pub open spec fn pcm24_code(b0: u8, b1: u8, b2: u8) -> int {
    b0 + 256 * b1 + 65536 * b2 - if b2 >= 128 { 16777216int } else { 0 }
}

/// The 32-bit word stored little-endian in four bytes.
pub open spec fn le_word(b0: u8, b1: u8, b2: u8, b3: u8) -> int {
    b0 + 256 * b1 + 65536 * b2 + 16777216 * b3
}

/// Encodes `value / 2^full_scale_log2` as a binary32 bit pattern, exactly.
///
/// Every integer below 2^24 in magnitude fits the 24-bit significand, so no
/// rounding takes place.
pub fn scale_pcm(value: i32, full_scale_log2: u32) -> (sample: u32)
    requires
        -0x100_0000 < value < 0x100_0000,
        full_scale_log2 <= 126,
    ensures
        encodes_ratio(sample, value as int, full_scale_log2 as nat),
        value == 0 ==> sample == SILENCE,
{
    if value == 0 {
        proof {
            lemma2_to64();
            assert(exponent_field(SILENCE) == 0);
            assert(significand(SILENCE) == 0);
            assert(0 * pow2((unit_exponent(SILENCE) + full_scale_log2) as nat) == 0);
            assert(0 * pow2((-(unit_exponent(SILENCE) + full_scale_log2)) as nat) == 0);
        }
        return SILENCE;
    }
    let negative = value < 0;
    let mut m: u32 = if negative {
        (0 - value) as u32
    } else {
        value as u32
    };
    let mut exponent: u32 = 150 - full_scale_log2;
    let ghost magnitude = m as int;
    let ghost shift: nat = 0;
    proof {
        lemma2_to64();
    }
    while m < 0x80_0000
        invariant
            0 < magnitude,
            0 < m < 0x100_0000,
            m == magnitude * pow2(shift),
            exponent + shift == 150 - full_scale_log2,
            shift <= 23,
            full_scale_log2 <= 126,
        decreases 0x100_0000 - m,
    {
        proof {
            lemma_pow2_unfold(shift + 1);
            assert(pow2(shift + 1) == 2 * pow2(shift));
            assert(magnitude * pow2(shift + 1) == 2 * (magnitude * pow2(shift))) by (nonlinear_arith)
                requires
                    pow2(shift + 1) == 2 * pow2(shift),
            ;
            lemma2_to64();
            if shift >= 23 {
                if shift > 23 {
                    lemma_pow2_strictly_increases(23, shift);
                }
                assert(pow2(shift) >= 0x80_0000);
                assert(magnitude * pow2(shift) >= pow2(shift)) by (nonlinear_arith)
                    requires
                        magnitude >= 1,
                        pow2(shift) >= 0,
                ;
            }
            shift = shift + 1;
        }
        m = m * 2;
        exponent = exponent - 1;
    }
    let sign: u32 = if negative {
        0x8000_0000
    } else {
        0
    };
    let sample = sign + exponent * 0x80_0000 + (m - 0x80_0000);
    proof {
        assert(exponent_field(sample) == exponent);
        assert(fraction_field(sample) == m - 0x80_0000);
        assert(significand(sample) == m);
        assert(unit_exponent(sample) + full_scale_log2 == -(shift as int));
        assert(abs(value as int) == magnitude);
    }
    sample
}

/// Reads a signed 16-bit code from two little-endian bytes.
pub fn pcm16_from_le(lo: u8, hi: u8) -> (code: i32)
    ensures
        code == pcm16_code(lo, hi),
        -0x8000 <= code < 0x8000,
{
    let raw: u32 = (lo as u32) | ((hi as u32) << 8);
    assert(raw == lo + 256 * hi) by (bit_vector)
        requires
            raw == (lo as u32) | ((hi as u32) << 8),
    ;
    if hi >= 128 {
        raw as i32 - 0x1_0000
    } else {
        raw as i32
    }
}

/// Reads a signed 24-bit code from three little-endian bytes, extending the
/// sign from bit 23.
pub fn pcm24_from_le(b0: u8, b1: u8, b2: u8) -> (code: i32)
    ensures
        code == pcm24_code(b0, b1, b2),
        -0x80_0000 <= code < 0x80_0000,
{
    let raw: u32 = (b0 as u32) | ((b1 as u32) << 8) | ((b2 as u32) << 16);
    assert(raw == b0 + 256 * b1 + 65536 * b2 && ((raw & 0x80_0000) != 0 <==> b2 >= 128))
        by (bit_vector)
        requires
            raw == (b0 as u32) | ((b1 as u32) << 8) | ((b2 as u32) << 16),
    ;
    if raw & 0x80_0000 != 0 {
        raw as i32 - 0x100_0000
    } else {
        raw as i32
    }
}

/// Reads a 32-bit word from four little-endian bytes.
pub fn word_from_le(b0: u8, b1: u8, b2: u8, b3: u8) -> (word: u32)
    ensures
        word == le_word(b0, b1, b2, b3),
{
    let word: u32 = (b0 as u32) | ((b1 as u32) << 8) | ((b2 as u32) << 16) | ((b3 as u32) << 24);
    assert(word == b0 + 256 * b1 + 65536 * b2 + 16777216 * b3) by (bit_vector)
        requires
            word == (b0 as u32) | ((b1 as u32) << 8) | ((b2 as u32) << 16) | ((b3 as u32) << 24),
    ;
    word
}

/// The four bytes of a word, least significant first.
pub open spec fn word_le_bytes(word: u32) -> Seq<u8> {
    seq![
        (word as int % 256) as u8,
        (word as int / 256 % 256) as u8,
        (word as int / 65536 % 256) as u8,
        (word as int / 16777216) as u8,
    ]
}

/// Splits a word into its four little-endian bytes.
pub fn word_to_le(word: u32) -> (bytes: [u8; 4])
    ensures
        bytes@ == word_le_bytes(word),
        le_word(bytes[0], bytes[1], bytes[2], bytes[3]) == word,
{
    let b0: u8 = (word & 0xff) as u8;
    let b1: u8 = ((word >> 8) & 0xff) as u8;
    let b2: u8 = ((word >> 16) & 0xff) as u8;
    let b3: u8 = (word >> 24) as u8;
    assert(b0 == word as int % 256 && b1 == word as int / 256 % 256 && b2 == word as int / 65536
        % 256 && b3 == word as int / 16777216) by (bit_vector)
        requires
            b0 == (word & 0xff) as u8,
            b1 == ((word >> 8) & 0xff) as u8,
            b2 == ((word >> 16) & 0xff) as u8,
            b3 == (word >> 24) as u8,
    ;
    let bytes = [b0, b1, b2, b3];
    assert(bytes@ =~= word_le_bytes(word));
    bytes
}

} // verus!
