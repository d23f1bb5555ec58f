//! The deterministic generator every synthesized fixture input comes from. It hashes a
//! tensor's seed name with FNV-1a and expands `(seed, index)` into one 64-bit word with a
//! SplitMix64-style finalizer, so that element `index` of a tensor never depends on how many
//! elements were drawn before it.

use vstd::prelude::*;
use vstd::string::StringSliceAdditionalSpecFns;

verus! {

pub const FNV_OFFSET: u64 = 0xCBF2_9CE4_8422_2325;
pub const FNV_PRIME: u64 = 0x0000_0100_0000_01B3;
pub const GOLDEN: u64 = 0x9E37_79B9_7F4A_7C15;
pub const MIX_A: u64 = 0xBF58_476D_1CE4_E5B9;
pub const MIX_B: u64 = 0x94D0_49BB_1331_11EB;

/// `x * y` modulo 2^64.
pub open spec fn wrap_mul64(x: u64, y: u64) -> u64 {
    ((x as nat * y as nat) % 0x1_0000_0000_0000_0000nat) as u64
}

/// `x + y` modulo 2^64.
pub open spec fn wrap_add64(x: u64, y: u64) -> u64 {
    ((x as nat + y as nat) % 0x1_0000_0000_0000_0000nat) as u64
}

/// FNV-1a over `bytes`: start at the offset basis; per byte, xor it in, then multiply by
/// the prime modulo 2^64.
pub open spec fn fnv1a(bytes: Seq<u8>) -> u64
    decreases bytes.len(),
{
    if bytes.len() == 0 {
        FNV_OFFSET
    } else {
        wrap_mul64(fnv1a(bytes.drop_last()) ^ (bytes.last() as u64), FNV_PRIME)
    }
}

/// The 64-bit word drawn for element `index` of the tensor seeded with `seed`.
pub open spec fn mix_word(seed: u64, index: u64) -> u64 {
    let x0 = wrap_add64(seed ^ index, GOLDEN);
    let x1 = wrap_mul64(x0 ^ (x0 >> 30u64), MIX_A);
    let x2 = wrap_mul64(x1 ^ (x1 >> 27u64), MIX_B);
    x2 ^ (x2 >> 31u64)
}

/// Hashes the UTF-8 bytes of a seed name.
pub fn name_hash(name: &str) -> (hash: u64)
    ensures
        hash == fnv1a(name.spec_bytes()),
{
    name_hash_bytes(name.as_bytes())
}

/// FNV-1a of a byte string.
pub fn name_hash_bytes(bytes: &[u8]) -> (hash: u64)
    ensures
        hash == fnv1a(bytes@),
{
    let mut hash = FNV_OFFSET;
    let mut i: usize = 0;
    while i < bytes.len()
        invariant
            i <= bytes.len(),
            hash == fnv1a(bytes@.take(i as int)),
        decreases bytes.len() - i,
    {
        assert(bytes@.take(i + 1).drop_last() =~= bytes@.take(i as int));
        hash = (hash ^ (bytes[i] as u64)).wrapping_mul(FNV_PRIME);
        i += 1;
    }
    assert(bytes@.take(bytes.len() as int) =~= bytes@);
    hash
}

/// The word for element `index` of the tensor seeded with `seed`.
pub fn word(seed: u64, index: usize) -> (w: u64)
    ensures
        w == mix_word(seed, index as u64),
{
    let mut x = (seed ^ index as u64).wrapping_add(GOLDEN);
    x = (x ^ (x >> 30)).wrapping_mul(MIX_A);
    x = (x ^ (x >> 27)).wrapping_mul(MIX_B);
    x ^ (x >> 31)
}


/// The inverse of `MIX_A` modulo 2^64.
const MIX_A_INVERSE: u64 = 0x96DE_1B17_3F11_9089;

/// The inverse of `MIX_B` modulo 2^64.
const MIX_B_INVERSE: u64 = 0x3196_42B2_D24D_8EC3;

/// Multiplying modulo 2^64 by `a` and then by its inverse gives back `x`.
proof fn lemma_mul_inverse(x: u64, a: u64, a_inverse: u64)
    requires
        (a as int * a_inverse as int) % 0x1_0000_0000_0000_0000int == 1,
    ensures
        wrap_mul64(wrap_mul64(x, a), a_inverse) == x,
{
    let m: int = 0x1_0000_0000_0000_0000int;
    let p: int = x as int * a as int;
    vstd::arithmetic::div_mod::lemma_mul_mod_noop_left(p, a_inverse as int, m);
    vstd::arithmetic::mul::lemma_mul_is_associative(x as int, a as int, a_inverse as int);
    vstd::arithmetic::div_mod::lemma_mul_mod_noop_right(x as int, a as int * a_inverse as int, m);
    vstd::arithmetic::div_mod::lemma_small_mod(x as nat, m as nat);
    assert(wrap_mul64(x, a) as int == p % m);
    assert((p % m) * a_inverse as int % m == x as int);
}

/// Multiplying modulo 2^64 by `MIX_A` or by `MIX_B` never maps two words to one.
proof fn lemma_mix_multipliers_injective(x: u64, y: u64)
    ensures
        wrap_mul64(x, MIX_A) == wrap_mul64(y, MIX_A) ==> x == y,
        wrap_mul64(x, MIX_B) == wrap_mul64(y, MIX_B) ==> x == y,
{
    assert((MIX_A as int * MIX_A_INVERSE as int) % 0x1_0000_0000_0000_0000int == 1);
    assert((MIX_B as int * MIX_B_INVERSE as int) % 0x1_0000_0000_0000_0000int == 1);
    lemma_mul_inverse(x, MIX_A, MIX_A_INVERSE);
    lemma_mul_inverse(y, MIX_A, MIX_A_INVERSE);
    lemma_mul_inverse(x, MIX_B, MIX_B_INVERSE);
    lemma_mul_inverse(y, MIX_B, MIX_B_INVERSE);
}

/// Adding `GOLDEN` modulo 2^64 never maps two words to one.
proof fn lemma_add_golden_injective(x: u64, y: u64)
    ensures
        wrap_add64(x, GOLDEN) == wrap_add64(y, GOLDEN) ==> x == y,
{
    let m: int = 0x1_0000_0000_0000_0000int;
    let sx: int = x as int + GOLDEN as int;
    let sy: int = y as int + GOLDEN as int;
    assert(sx % m == if sx < m { sx } else { sx - m });
    assert(sy % m == if sy < m { sy } else { sy - m });
}

/// The finalizer's xor-shifts never map two words to one.
proof fn lemma_xor_shifts_injective(x: u64, y: u64)
    ensures
        x ^ (x >> 30u64) == y ^ (y >> 30u64) ==> x == y,
        x ^ (x >> 27u64) == y ^ (y >> 27u64) ==> x == y,
        x ^ (x >> 31u64) == y ^ (y >> 31u64) ==> x == y,
{
    assert(x ^ (x >> 30u64) == y ^ (y >> 30u64) ==> x == y) by (bit_vector);
    assert(x ^ (x >> 27u64) == y ^ (y >> 27u64) ==> x == y) by (bit_vector);
    assert(x ^ (x >> 31u64) == y ^ (y >> 31u64) ==> x == y) by (bit_vector);
}

/// A word depends on its seed and index only through `seed ^ index`, and two draws give the
/// same word exactly when their `seed ^ index` agree: the generator never repeats a word
/// within a tensor and never loses bits of the index or the seed.
pub proof fn lemma_words_equal_iff_xor_equal(seed1: u64, index1: u64, seed2: u64, index2: u64)
    ensures
        (mix_word(seed1, index1) == mix_word(seed2, index2)) <==> ((seed1 ^ index1) == (seed2
            ^ index2)),
{
    let a0 = wrap_add64(seed1 ^ index1, GOLDEN);
    let b0 = wrap_add64(seed2 ^ index2, GOLDEN);
    let a1 = wrap_mul64(a0 ^ (a0 >> 30u64), MIX_A);
    let b1 = wrap_mul64(b0 ^ (b0 >> 30u64), MIX_A);
    let a2 = wrap_mul64(a1 ^ (a1 >> 27u64), MIX_B);
    let b2 = wrap_mul64(b1 ^ (b1 >> 27u64), MIX_B);
    lemma_xor_shifts_injective(a2, b2);
    lemma_mix_multipliers_injective(a1 ^ (a1 >> 27u64), b1 ^ (b1 >> 27u64));
    lemma_xor_shifts_injective(a1, b1);
    lemma_mix_multipliers_injective(a0 ^ (a0 >> 30u64), b0 ^ (b0 >> 30u64));
    lemma_xor_shifts_injective(a0, b0);
    lemma_add_golden_injective(seed1 ^ index1, seed2 ^ index2);
}

/// Within one tensor, distinct element indices draw distinct words.
pub proof fn lemma_words_distinct(seed: u64, i: u64, j: u64)
    requires
        i != j,
    ensures
        mix_word(seed, i) != mix_word(seed, j),
{
    assert((seed ^ i) == (seed ^ j) ==> i == j) by (bit_vector);
    lemma_words_equal_iff_xor_equal(seed, i, seed, j);
}

/// The bf16 bit pattern that `bits` (an f32 bit pattern) rounds to: add `0x7FFF` plus the
/// lowest kept bit, modulo 2^32, and keep the upper half.
pub open spec fn bf16_round(bits: u32) -> u16 {
    ((((bits as u64) + 0x7FFFu64 + (((bits >> 16u32) & 1u32) as u64)) as u32) >> 16u32) as u16
}

/// The f32 bit pattern of a bf16 value: the bf16 bits in the upper half, zeros below.
pub open spec fn bf16_widen(bits: u16) -> u32 {
    (bits as u32) << 16u32
}

/// The two little-endian bytes of `value`.
pub open spec fn le_u16(value: u16) -> Seq<u8> {
    seq![(value & 0xFFu16) as u8, (value >> 8u16) as u8]
}

/// Rounds an f32, given by its bit pattern, to bf16 bits: round to nearest, ties to even.
pub fn f32_to_bf16_bits(bits: u32) -> (r: u16)
    ensures
        r == bf16_round(bits),
        (bits & 0xFFFFu32) < 0x8000u32 ==> r == (bits >> 16u32) as u16,
        (bits & 0xFFFFu32) > 0x8000u32 ==> r == (((bits >> 16u32) as u64 + 1) as u16),
        (bits & 0xFFFFu32) == 0x8000u32 ==> r == (((bits >> 16u32) as u64 + ((bits >> 16u32)
            & 1u32) as u64) as u16),
{
    proof {
        lemma_bf16_round_nearest_even(bits);
    }
    let rounding: u64 = 0x7FFF + ((bits >> 16) & 1) as u64;
    (((bits as u64 + rounding) as u32) >> 16) as u16
}

/// Rounding to bf16 keeps the upper sixteen bits when the dropped half is below one half,
/// rounds up when it is above, and on an exact tie rounds to the even neighbour.
pub proof fn lemma_bf16_round_nearest_even(bits: u32)
    ensures
        (bits & 0xFFFFu32) < 0x8000u32 ==> bf16_round(bits) == (bits >> 16u32) as u16,
        (bits & 0xFFFFu32) > 0x8000u32 ==> bf16_round(bits) == (((bits >> 16u32) as u64 + 1) as u16),
        (bits & 0xFFFFu32) == 0x8000u32 ==> bf16_round(bits) == (((bits >> 16u32) as u64 + ((bits
            >> 16u32) & 1u32) as u64) as u16),
{
    assert((bits & 0xFFFFu32) < 0x8000u32 ==> ((((bits as u64) + 0x7FFFu64 + (((bits >> 16u32)
        & 1u32) as u64)) as u32) >> 16u32) as u16 == (bits >> 16u32) as u16) by (bit_vector);
    assert((bits & 0xFFFFu32) > 0x8000u32 ==> ((((bits as u64) + 0x7FFFu64 + (((bits >> 16u32)
        & 1u32) as u64)) as u32) >> 16u32) as u16 == (((bits >> 16u32) as u64 + 1) as u16))
        by (bit_vector);
    assert((bits & 0xFFFFu32) == 0x8000u32 ==> ((((bits as u64) + 0x7FFFu64 + (((bits >> 16u32)
        & 1u32) as u64)) as u32) >> 16u32) as u16 == (((bits >> 16u32) as u64 + ((bits >> 16u32)
        & 1u32) as u64) as u16)) by (bit_vector);
}

/// The f32 bit pattern of the bf16 value `bits`.
pub fn bf16_bits_to_f32(bits: u16) -> (r: u32)
    ensures
        r == bf16_widen(bits),
{
    (bits as u32) << 16
}

/// Widening a bf16 value to f32 and rounding it back gives the same bf16 bits.
pub proof fn lemma_bf16_round_trip(bits: u16)
    ensures
        bf16_round(bf16_widen(bits)) == bits,
{
    assert(((((((bits as u32) << 16u32) as u64) + 0x7FFFu64 + (((((bits as u32) << 16u32)
        >> 16u32) & 1u32) as u64)) as u32) >> 16u32) as u16 == bits) by (bit_vector);
}

/// Appends the two little-endian bytes of `value`.
pub fn push_u16(out: &mut Vec<u8>, value: u16)
    ensures
        final(out)@ == old(out)@ + le_u16(value),
{
    out.push((value & 0xFF) as u8);
    out.push((value >> 8) as u8);
}

/// Element `index` of a sign pattern: `magnitude` with its sign bit set when the top bit
/// of the element's word is set.
pub open spec fn signed_bf16(seed: u64, index: int, magnitude: u16) -> u16 {
    if mix_word(seed, index as u64) >> 63u64 == 1 {
        magnitude | 0x8000u16
    } else {
        magnitude
    }
}

/// An element of a sign pattern is negative exactly when the top bit of its word is set (or
/// the magnitude itself carries the sign bit), and apart from the sign bit it is the
/// magnitude.
pub proof fn lemma_sign_from_top_bit(seed: u64, index: int, magnitude: u16)
    ensures
        (signed_bf16(seed, index, magnitude) >= 0x8000) <==> (magnitude >= 0x8000 || mix_word(
            seed,
            index as u64,
        ) >= 0x8000_0000_0000_0000u64),
        signed_bf16(seed, index, magnitude) & 0x7FFFu16 == magnitude & 0x7FFFu16,
{
    let w = mix_word(seed, index as u64);
    assert((w >> 63u64 == 1) <==> (w >= 0x8000_0000_0000_0000u64)) by (bit_vector);
    assert((magnitude | 0x8000u16) >= 0x8000u16 && (magnitude | 0x8000u16) & 0x7FFFu16 == magnitude
        & 0x7FFFu16) by (bit_vector);
}

/// The two bytes of a bf16 value: the high byte has its top bit set exactly when the value
/// does, and the low byte is the value's low byte.
proof fn lemma_le_u16_bytes(v: u16, m: u16)
    requires
        v & 0x7FFFu16 == m & 0x7FFFu16,
    ensures
        (le_u16(v)[1] >= 0x80) <==> (v >= 0x8000),
        le_u16(v)[1] & 0x7Fu8 == ((m >> 8u16) & 0x7Fu16) as u8,
        le_u16(v)[0] == (m & 0xFFu16) as u8,
{
    assert(((v >> 8u16) as u8 >= 0x80u8) <==> (v >= 0x8000u16)) by (bit_vector);
    assert(((v >> 8u16) as u8) & 0x7Fu8 == ((m >> 8u16) & 0x7Fu16) as u8) by (bit_vector)
        requires
            v & 0x7FFFu16 == m & 0x7FFFu16,
    ;
    assert((v & 0xFFu16) as u8 == (m & 0xFFu16) as u8) by (bit_vector)
        requires
            v & 0x7FFFu16 == m & 0x7FFFu16,
    ;
}

/// The byte-level reading of a sign pattern: each element's high byte has its top bit set
/// exactly when the element is negative, and its other bits are the magnitude's.
proof fn lemma_sign_bytes(out: Seq<u8>, count: int, seed: u64, magnitude: u16)
    requires
        out.len() == 2 * count,
        forall|i: int|
            0 <= i < count ==> #[trigger] out.subrange(2 * i, 2 * i + 2) == le_u16(
                signed_bf16(seed, i, magnitude),
            ),
    ensures
        forall|i: int|
            0 <= i < count ==> ((#[trigger] out[2 * i + 1] >= 0x80) <==> (magnitude >= 0x8000
                || mix_word(seed, i as u64) >= 0x8000_0000_0000_0000u64)),
        forall|i: int|
            0 <= i < count ==> #[trigger] out[2 * i] == (magnitude & 0xFFu16) as u8 && out[2 * i
                + 1] & 0x7Fu8 == ((magnitude >> 8u16) & 0x7Fu16) as u8,
{
    assert forall|i: int| 0 <= i < count implies ((#[trigger] out[2 * i + 1] >= 0x80) <==> (
    magnitude >= 0x8000 || mix_word(seed, i as u64) >= 0x8000_0000_0000_0000u64)) by {
        lemma_sign_bytes_at(out, seed, magnitude, i);
    }
    assert forall|i: int| 0 <= i < count implies #[trigger] out[2 * i] == (magnitude & 0xFFu16) as u8
        && out[2 * i + 1] & 0x7Fu8 == ((magnitude >> 8u16) & 0x7Fu16) as u8 by {
        lemma_sign_bytes_at(out, seed, magnitude, i);
    }
}

proof fn lemma_sign_bytes_at(out: Seq<u8>, seed: u64, magnitude: u16, i: int)
    requires
        0 <= 2 * i,
        2 * i + 2 <= out.len(),
        out.subrange(2 * i, 2 * i + 2) == le_u16(signed_bf16(seed, i, magnitude)),
    ensures
        (out[2 * i + 1] >= 0x80) <==> (magnitude >= 0x8000 || mix_word(seed, i as u64)
            >= 0x8000_0000_0000_0000u64),
        out[2 * i] == (magnitude & 0xFFu16) as u8,
        out[2 * i + 1] & 0x7Fu8 == ((magnitude >> 8u16) & 0x7Fu16) as u8,
{
    let v = signed_bf16(seed, i, magnitude);
    lemma_sign_from_top_bit(seed, i, magnitude);
    lemma_le_u16_bytes(v, magnitude);
    assert(out[2 * i] == out.subrange(2 * i, 2 * i + 2)[0]);
    assert(out[2 * i + 1] == out.subrange(2 * i, 2 * i + 2)[1]);
}

/// `count` bf16 values, little-endian, all of magnitude `magnitude` (bf16 bits) and of
/// random sign: element `i` is negative exactly when the top bit of its word is set.
pub fn bf16_signs(name: &str, count: usize, magnitude: u16) -> (out: Vec<u8>)
    ensures
        out@.len() == 2 * count,
        forall|i: int|
            0 <= i < count ==> #[trigger] out@.subrange(2 * i, 2 * i + 2) == le_u16(
                signed_bf16(fnv1a(name.spec_bytes()), i, magnitude),
            ),
        forall|i: int|
            0 <= i < count ==> ((#[trigger] out@[2 * i + 1] >= 0x80) <==> (magnitude >= 0x8000
                || mix_word(fnv1a(name.spec_bytes()), i as u64) >= 0x8000_0000_0000_0000u64)),
        forall|i: int|
            0 <= i < count ==> #[trigger] out@[2 * i] == (magnitude & 0xFFu16) as u8 && out@[2 * i
                + 1] & 0x7Fu8 == ((magnitude >> 8u16) & 0x7Fu16) as u8,
{
    let seed = name_hash(name);
    let mut out: Vec<u8> = Vec::new();
    let mut index: usize = 0;
    while index < count
        invariant
            index <= count,
            seed == fnv1a(name.spec_bytes()),
            out@.len() == 2 * index,
            forall|i: int|
                0 <= i < index ==> #[trigger] out@.subrange(2 * i, 2 * i + 2) == le_u16(
                    signed_bf16(seed, i, magnitude),
                ),
        decreases count - index,
    {
        let negative = word(seed, index) >> 63 == 1;
        let value = if negative {
            magnitude | 0x8000
        } else {
            magnitude
        };
        let ghost before = out@;
        push_u16(&mut out, value);
        assert forall|i: int| 0 <= i < index + 1 implies #[trigger] out@.subrange(2 * i, 2 * i + 2)
            == le_u16(signed_bf16(seed, i, magnitude)) by {
            if i < index {
                assert(out@.subrange(2 * i, 2 * i + 2) =~= before.subrange(2 * i, 2 * i + 2));
            } else {
                assert(out@.subrange(2 * i, 2 * i + 2) =~= le_u16(value));
            }
        }
        index += 1;
    }
    proof {
        lemma_sign_bytes(out@, count as int, seed, magnitude);
    }
    out
}

/// The f8 (E4M3) code drawn from word `w`: an exponent in `[exp_min, exp_max]` from bits
/// 32.., a mantissa from bits 56..59, and, for a signed tensor, the sign from bit 63.
pub open spec fn f8_code(w: u64, exp_min: u8, exp_max: u8, signed: bool) -> u8 {
    let span = (exp_max - exp_min + 1) as u64;
    let exponent = (exp_min + ((w >> 32u64) % span) as u8) as u8;
    let mantissa = ((w >> 56u64) & 7u64) as u8;
    let sign: u8 = if signed {
        (((w >> 63u64) as u8) << 7u8) as u8
    } else {
        0u8
    };
    sign | ((exponent << 3u8) as u8) | mantissa
}

proof fn lemma_f8_fields(sign: u8, exponent: u8, mantissa: u8)
    requires
        sign == 0 || sign == 0x80,
        exponent <= 14,
        mantissa <= 7,
    ensures
        ((sign | ((exponent << 3u8) as u8) | mantissa) >> 3u8) & 0xFu8 == exponent,
        (sign | ((exponent << 3u8) as u8) | mantissa) & 7u8 == mantissa,
        sign == 0 ==> (sign | ((exponent << 3u8) as u8) | mantissa) < 0x80,
{
    assert(((sign | ((exponent << 3u8) as u8) | mantissa) >> 3u8) & 0xFu8 == exponent) by (bit_vector)
        requires
            sign == 0 || sign == 0x80,
            exponent <= 14,
            mantissa <= 7,
    ;
    assert((sign | ((exponent << 3u8) as u8) | mantissa) & 7u8 == mantissa) by (bit_vector)
        requires
            sign == 0 || sign == 0x80,
            exponent <= 14,
            mantissa <= 7,
    ;
    assert(sign == 0 ==> (sign | ((exponent << 3u8) as u8) | mantissa) < 0x80) by (bit_vector)
        requires
            exponent <= 14,
            mantissa <= 7,
    ;
}

/// A signed f8 code is negative exactly when the top bit of its word is set.
proof fn lemma_f8_sign_is_top_bit(w: u64, exponent: u8, mantissa: u8)
    requires
        exponent <= 14,
        mantissa <= 7,
    ensures
        ((((((w >> 63u64) as u8) << 7u8) as u8) | ((exponent << 3u8) as u8) | mantissa) >= 0x80u8)
            <==> (w >= 0x8000_0000_0000_0000u64),
{
    assert(((((((w >> 63u64) as u8) << 7u8) as u8) | ((exponent << 3u8) as u8) | mantissa)
        >= 0x80u8) <==> (w >= 0x8000_0000_0000_0000u64)) by (bit_vector)
        requires
            exponent <= 14,
            mantissa <= 7,
    ;
}

/// `count` f8 (E4M3) codes whose exponents lie in the band `[exp_min, exp_max]`.
pub fn f8_banded(name: &str, count: usize, exp_min: u8, exp_max: u8, signed: bool) -> (out: Vec<u8>)
    requires
        exp_min <= exp_max <= 14,
    ensures
        out@.len() == count,
        forall|i: int|
            0 <= i < count ==> #[trigger] out@[i] == f8_code(
                mix_word(fnv1a(name.spec_bytes()), i as u64),
                exp_min,
                exp_max,
                signed,
            ),
        forall|i: int|
            0 <= i < count ==> exp_min <= (#[trigger] out@[i] >> 3u8) & 0xFu8 <= exp_max,
        !signed ==> forall|i: int| 0 <= i < count ==> #[trigger] out@[i] < 0x80,
        signed ==> forall|i: int|
            0 <= i < count ==> ((#[trigger] out@[i] >= 0x80) <==> mix_word(
                fnv1a(name.spec_bytes()),
                i as u64,
            ) >= 0x8000_0000_0000_0000u64),
{
    let seed = name_hash(name);
    let span = (exp_max - exp_min + 1) as u64;
    let mut out: Vec<u8> = Vec::new();
    let mut index: usize = 0;
    while index < count
        invariant
            index <= count,
            exp_min <= exp_max <= 14,
            span == (exp_max - exp_min + 1) as u64,
            seed == fnv1a(name.spec_bytes()),
            out@.len() == index,
            forall|i: int|
                0 <= i < index ==> #[trigger] out@[i] == f8_code(
                    mix_word(seed, i as u64),
                    exp_min,
                    exp_max,
                    signed,
                ),
            forall|i: int| 0 <= i < index ==> exp_min <= (#[trigger] out@[i] >> 3u8) & 0xFu8 <= exp_max,
            !signed ==> forall|i: int| 0 <= i < index ==> #[trigger] out@[i] < 0x80,
            signed ==> forall|i: int|
                0 <= i < index ==> ((#[trigger] out@[i] >= 0x80) <==> mix_word(seed, i as u64)
                    >= 0x8000_0000_0000_0000u64),
        decreases count - index,
    {
        let w = word(seed, index);
        let exponent = exp_min + ((w >> 32) % span) as u8;
        let mantissa = ((w >> 56) & 0x7) as u8;
        let sign: u8 = if signed {
            ((w >> 63) as u8) << 7
        } else {
            0
        };
        proof {
            assert((w >> 63u64) <= 1) by (bit_vector);
            assert((((w >> 63u64) as u8) << 7u8) as u8 == 0 || (((w >> 63u64) as u8) << 7u8) as u8
                == 0x80) by (bit_vector);
            assert(((w >> 56u64) & 7u64) <= 7) by (bit_vector);
            lemma_f8_fields(sign, exponent, mantissa);
            if signed {
                lemma_f8_sign_is_top_bit(w, exponent, mantissa);
            }
        }
        out.push(sign | (exponent << 3) | mantissa);
        index += 1;
    }
    out
}

/// The f4 (E2M1) code drawn from word `w`: its top four bits.
pub open spec fn f4_code(w: u64) -> u8 {
    ((w >> 60u64) & 0xFu64) as u8
}

/// An f4 code is the top four bits of its word: the word divided by 2^60.
pub proof fn lemma_f4_code_top_bits(w: u64)
    ensures
        f4_code(w) == (w / 0x1000_0000_0000_0000u64) as u8,
        f4_code(w) <= 15,
{
    assert(((w >> 60u64) & 0xFu64) as u8 == (w / 0x1000_0000_0000_0000u64) as u8) by (bit_vector);
    assert(((w >> 60u64) & 0xFu64) <= 15) by (bit_vector);
}

/// `count` f4 (E2M1) codes packed two per byte, element `2p` in the low nibble of byte `p`
/// and element `2p + 1` in the high nibble.
pub fn f4_nibbles(name: &str, count: usize) -> (out: Vec<u8>)
    requires
        count % 2 == 0,
    ensures
        out@.len() == count / 2,
        forall|p: int|
            0 <= p < count / 2 ==> #[trigger] out@[p] == f4_code(
                mix_word(fnv1a(name.spec_bytes()), (2 * p) as u64),
            ) | ((f4_code(mix_word(fnv1a(name.spec_bytes()), (2 * p + 1) as u64)) << 4u8) as u8),
        forall|p: int|
            0 <= p < count / 2 ==> #[trigger] out@[p] & 0xFu8 == f4_code(
                mix_word(fnv1a(name.spec_bytes()), (2 * p) as u64),
            ) && out@[p] >> 4u8 == f4_code(mix_word(fnv1a(name.spec_bytes()), (2 * p + 1) as u64)),
        forall|p: int|
            0 <= p < count / 2 ==> #[trigger] out@[p] & 0xFu8 == (mix_word(
                fnv1a(name.spec_bytes()),
                (2 * p) as u64,
            ) / 0x1000_0000_0000_0000u64) as u8 && out@[p] >> 4u8 == (mix_word(
                fnv1a(name.spec_bytes()),
                (2 * p + 1) as u64,
            ) / 0x1000_0000_0000_0000u64) as u8,
{
    let seed = name_hash(name);
    let pairs = count / 2;
    let mut out: Vec<u8> = Vec::new();
    let mut pair: usize = 0;
    while pair < pairs
        invariant
            pair <= pairs,
            pairs == count / 2,
            seed == fnv1a(name.spec_bytes()),
            out@.len() == pair,
            forall|p: int|
                0 <= p < pair ==> #[trigger] out@[p] == f4_code(mix_word(seed, (2 * p) as u64)) | ((
                f4_code(mix_word(seed, (2 * p + 1) as u64)) << 4u8) as u8),
            forall|p: int|
                0 <= p < pair ==> #[trigger] out@[p] & 0xFu8 == f4_code(mix_word(seed, (2 * p) as u64))
                    && out@[p] >> 4u8 == f4_code(mix_word(seed, (2 * p + 1) as u64)),
            forall|p: int|
                0 <= p < pair ==> #[trigger] out@[p] & 0xFu8 == (mix_word(seed, (2 * p) as u64)
                    / 0x1000_0000_0000_0000u64) as u8 && out@[p] >> 4u8 == (mix_word(
                    seed,
                    (2 * p + 1) as u64,
                ) / 0x1000_0000_0000_0000u64) as u8,
        decreases pairs - pair,
    {
        let w_low = word(seed, pair * 2);
        let w_high = word(seed, pair * 2 + 1);
        let low = ((w_low >> 60) & 0xF) as u8;
        let high = ((w_high >> 60) & 0xF) as u8;
        proof {
            lemma_f4_code_top_bits(w_low);
            lemma_f4_code_top_bits(w_high);
            assert(((w_low >> 60u64) & 0xFu64) <= 15) by (bit_vector);
            assert(((w_high >> 60u64) & 0xFu64) <= 15) by (bit_vector);
            assert((low | ((high << 4u8) as u8)) & 0xFu8 == low && (low | ((high << 4u8) as u8))
                >> 4u8 == high) by (bit_vector)
                requires
                    low <= 15,
                    high <= 15,
            ;
        }
        out.push(low | (high << 4));
        pair += 1;
    }
    out
}

} // verus!
